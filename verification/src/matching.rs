//! Order matching and position accounting of the simulated exchange: what happens
//! to the waiting orders, the positions and the cash balance on each new k-line.
use crate::book::{
    book_entries, book_position, book_replace_at, book_shift_remove, book_value_at, book_insert,
    insert_effect, key_position, remove_effect, trigger_count, unique_keys, OrderEx,
};
use crate::data::KLine;
use crate::decimal::{dec_value, decimal_checked_add, decimal_checked_sub, opt_view, Dec};
use crate::exchange::{unfiled, unfiled_kept, 
    pending_entry, position_index, unique_positions, ExchangeError, LocalExchange, PositionEx,
};
use crate::margin::{opt_add, opt_mul, DecView};
use crate::order::{signed_by_side, signed_view, HistoryPosition, Kind, Order, Record, Side, Status};
use std::collections::VecDeque;
use vstd::prelude::*;

verus! {

/// The absolute value of a decimal (mantissa sign cleared, scale kept).
pub open spec fn abs_view(v: DecView) -> DecView {
    if v.0 < 0 {
        (-v.0, v.1)
    } else {
        v
    }
}

/// Net quantity (buys positive, sells negative) over the first `n` fills, summed
/// from zero; `None` once a sum overflows.
pub open spec fn net_quantity(log: Seq<Record>, n: int) -> Option<DecView>
    decreases n,
{
    if n <= 0 {
        Some((0int, 0nat))
    } else {
        opt_add(net_quantity(log, n - 1), Some(signed_view(log[n - 1].quantity@, log[n - 1].side)))
    }
}

/// The largest absolute net quantity reached over the first `n` fills (zero for
/// none; the earliest one on ties); `None` once a sum overflows.
pub open spec fn max_exposure(log: Seq<Record>, n: int) -> Option<DecView>
    decreases n,
{
    if n <= 0 {
        Some((0int, 0nat))
    } else if n == 1 {
        match net_quantity(log, 1) {
            Some(s) => Some(abs_view(s)),
            None => None,
        }
    } else {
        match (max_exposure(log, n - 1), net_quantity(log, n)) {
            (Some(m), Some(s)) => if dec_value(abs_view(s)) > dec_value(m) {
                Some(abs_view(s))
            } else {
                Some(m)
            },
            _ => None,
        }
    }
}

/// Realised profit over the first `n` fills, summed from zero.
pub open spec fn profit_total(log: Seq<Record>, n: int) -> Option<DecView>
    decreases n,
{
    if n <= 0 {
        Some((0int, 0nat))
    } else {
        opt_add(profit_total(log, n - 1), Some(log[n - 1].profit@))
    }
}

/// Fees over the first `n` fills, summed from zero.
pub open spec fn fee_total(log: Seq<Record>, n: int) -> Option<DecView>
    decreases n,
{
    if n <= 0 {
        Some((0int, 0nat))
    } else {
        opt_add(fee_total(log, n - 1), Some(log[n - 1].fee@))
    }
}

/// Quantity of the first `n` fills on the side opposite to `side`, summed from zero.
pub open spec fn opposite_total(log: Seq<Record>, side: Side, n: int) -> Option<DecView>
    decreases n,
{
    if n <= 0 {
        Some((0int, 0nat))
    } else if log[n - 1].side != side {
        opt_add(opposite_total(log, side, n - 1), Some(log[n - 1].quantity@))
    } else {
        opposite_total(log, side, n - 1)
    }
}

pub proof fn lemma_net_quantity_none(log: Seq<Record>, j: int, n: int)
    requires
        0 <= j <= n,
        net_quantity(log, j) is None,
    ensures
        net_quantity(log, n) is None,
        max_exposure(log, n) is None,
    decreases n - j,
{
    if j < n {
        lemma_net_quantity_none(log, j + 1, n);
    } else if n > 1 {
        assert(net_quantity(log, n) is None);
    }
}

pub proof fn lemma_sum_none(log: Seq<Record>, j: int, n: int)
    requires
        0 <= j <= n,
    ensures
        profit_total(log, j) is None ==> profit_total(log, n) is None,
        fee_total(log, j) is None ==> fee_total(log, n) is None,
    decreases n - j,
{
    if j < n {
        lemma_sum_none(log, j + 1, n);
    }
}

pub proof fn lemma_opposite_none(log: Seq<Record>, side: Side, j: int, n: int)
    requires
        0 <= j <= n,
        opposite_total(log, side, j) is None,
    ensures
        opposite_total(log, side, n) is None,
    decreases n - j,
{
    if j < n {
        lemma_opposite_none(log, side, j + 1, n);
    }
}

impl PositionEx {
    /// The largest absolute net quantity the position reached over its fills.
    pub fn calc_max_quantity(&self) -> (r: Result<Dec, ExchangeError>)
        ensures
            r is Err <==> max_exposure(self.log@, self.log@.len() as int) is None,
            r matches Ok(d) ==> Some(d@) == max_exposure(self.log@, self.log@.len() as int),
            r matches Err(e) ==> e == ExchangeError::Overflow,
    {
        let mut max_quantity: Option<Dec> = None;
        let mut sum = Dec::zero();
        let mut i: usize = 0;
        while i < self.log.len()
            invariant
                i <= self.log@.len(),
                Some(sum@) == net_quantity(self.log@, i as int),
                (i == 0) == (max_quantity is None),
                max_quantity matches Some(m) ==> Some(m@) == max_exposure(self.log@, i as int),
            decreases self.log.len() - i,
        {
            let v = signed_by_side(self.log[i].quantity, self.log[i].side);
            sum = match sum.checked_add(&v) {
                Some(s) => s,
                None => {
                    proof {
                        lemma_net_quantity_none(self.log@, i + 1, self.log@.len() as int);
                    }
                    return Err(ExchangeError::Overflow);
                },
            };
            let exposure = sum.abs();
            match max_quantity {
                Some(m) => {
                    if exposure.gt(&m) {
                        max_quantity = Some(exposure);
                    }
                },
                None => {
                    max_quantity = Some(exposure);
                },
            }
            i = i + 1;
        }
        match max_quantity {
            Some(m) => Ok(m),
            None => Ok(Dec::zero()),
        }
    }

    /// Realised profit and fees over the position's fills.
    pub fn sum_profit_fee(&self) -> (r: Result<(Dec, Dec), ExchangeError>)
        ensures
            r is Ok <==> (profit_total(self.log@, self.log@.len() as int) is Some && fee_total(
                self.log@,
                self.log@.len() as int,
            ) is Some),
            r matches Ok(pf) ==> Some(pf.0@) == profit_total(self.log@, self.log@.len() as int) && Some(
                pf.1@,
            ) == fee_total(self.log@, self.log@.len() as int),
            r matches Err(e) ==> e == ExchangeError::Overflow,
    {
        let mut p = Dec::zero();
        let mut f = Dec::zero();
        let mut i: usize = 0;
        while i < self.log.len()
            invariant
                i <= self.log@.len(),
                Some(p@) == profit_total(self.log@, i as int),
                Some(f@) == fee_total(self.log@, i as int),
            decreases self.log.len() - i,
        {
            let np = p.checked_add(&self.log[i].profit);
            let nf = f.checked_add(&self.log[i].fee);
            match (np, nf) {
                (Some(a), Some(b)) => {
                    p = a;
                    f = b;
                },
                _ => {
                    proof {
                        lemma_sum_none(self.log@, i + 1, self.log@.len() as int);
                    }
                    return Err(ExchangeError::Overflow);
                },
            }
            i = i + 1;
        }
        Ok((p, f))
    }

    /// Quantity filled against the position's side, floored at zero.
    pub fn closed_quantity(&self) -> (r: Result<Dec, ExchangeError>)
        ensures
            r is Err <==> opposite_total(self.log@, self.position.side, self.log@.len() as int) is None,
            r matches Ok(d) ==> {
                let t = opposite_total(self.log@, self.position.side, self.log@.len() as int).unwrap();
                d@ == (if dec_value(t) > 0 { t } else { (0int, 0nat) })
            },
            r matches Err(e) ==> e == ExchangeError::Overflow,
    {
        let mut sum = Dec::zero();
        let mut i: usize = 0;
        while i < self.log.len()
            invariant
                i <= self.log@.len(),
                Some(sum@) == opposite_total(self.log@, self.position.side, i as int),
            decreases self.log.len() - i,
        {
            if self.log[i].side != self.position.side {
                sum = match sum.checked_add(&self.log[i].quantity) {
                    Some(s) => s,
                    None => {
                        proof {
                            lemma_opposite_none(self.log@, self.position.side, i + 1, self.log@.len() as int);
                        }
                        return Err(ExchangeError::Overflow);
                    },
                };
            }
            i = i + 1;
        }
        let zero = Dec::zero();
        Ok(sum.max(zero))
    }
}

/// The price moved by the slippage fraction against the taker:
/// `price * (1 + slippage)` for a buy, `price * (1 - slippage)` for a sell.
pub open spec fn slipped_price(side: Side, price: DecView, slippage: DecView) -> Option<DecView> {
    if side == Side::Buy {
        opt_mul(Some(price), decimal_checked_add((1int, 0nat), slippage))
    } else {
        opt_mul(Some(price), decimal_checked_sub((1int, 0nat), slippage))
    }
}

/// `v` limited to `[lo, hi]`, compared by value.
pub open spec fn clamp_view(v: DecView, lo: DecView, hi: DecView) -> DecView {
    if dec_value(v) < dec_value(lo) {
        lo
    } else if dec_value(v) > dec_value(hi) {
        hi
    } else {
        v
    }
}

/// The price at which a waiting limit or liquidation order fills on `k`, if it does.
/// A liquidation order fills at its price when that lies within `[low, high]`. A limit
/// buy priced at or above the open fills at the high, a limit sell at or below the
/// open at the low; otherwise it fills at its own price once the low (for a buy) or
/// the high (for a sell) reaches it.
pub open spec fn fill_price(o: OrderEx, k: KLine) -> Option<Dec> {
    let p = o.order.price.val();
    if o.kind == Kind::Liquidation {
        if k.low.val() <= p && p <= k.high.val() {
            Some(o.order.price)
        } else {
            None
        }
    } else if o.order.side == Side::Buy && p >= k.open.val() {
        Some(k.high)
    } else if o.order.side == Side::Sell && p <= k.open.val() {
        Some(k.low)
    } else if (o.order.side == Side::Buy && k.low.val() <= p) || (o.order.side == Side::Sell
        && k.high.val() >= p) {
        Some(o.order.price)
    } else {
        None
    }
}

/// A trigger order fires when its trigger price lies within `[low, high]`.
pub open spec fn fires(o: OrderEx, k: KLine) -> bool {
    k.low.val() <= o.order.trigger_price.val() && o.order.trigger_price.val() <= k.high.val()
}

/// The order a fired trigger order places: a limit order at its price, or, for a
/// trigger-market order, an order at its trigger price.
pub open spec fn fired_order(o: Order) -> Order {
    Order {
        symbol: o.symbol,
        side: o.side,
        trigger_price: Dec::spec_zero(),
        price: if o.price.val() == 0 {
            o.trigger_price
        } else {
            o.price
        },
        quantity: o.quantity,
        reduce_only: o.reduce_only,
    }
}

/// The waiting order `o` as filed in the history with `status` at `time`.
pub open spec fn filed_as(o: OrderEx, status: Status, time: u64) -> OrderEx {
    OrderEx { status, update_time: time, ..o }
}

/// The kind of the order a fired trigger order places.
pub open spec fn fired_kind(o: Order) -> Kind {
    if o.price.val() == 0 {
        Kind::Market
    } else {
        Kind::Limit
    }
}

/// The waiting order after moving it to `side` (when given) and `price`.
pub open spec fn repriced(o: OrderEx, side: Option<Side>, price: Dec) -> OrderEx {
    OrderEx {
        order: Order {
            side: match side {
                Some(s) => s,
                None => o.order.side,
            },
            price: price,
            ..o.order
        },
        ..o
    }
}

/// What the matching engine leaves alone: the replayed data, the settings, and the
/// number of waiting trigger orders, which never grows.
pub open spec fn engine_frame(a: LocalExchange, b: LocalExchange) -> bool {
    &&& a.timeline == b.timeline
    &&& a.klines == b.klines
    &&& a.leverage == b.leverage
    &&& a.slippage == b.slippage
    &&& a.pacemaker == b.pacemaker
    &&& a.exhausted == b.exhausted
    &&& a.id <= b.id
    &&& trigger_count(book_entries(b.pending_order_list)) <= trigger_count(book_entries(a.pending_order_list))
    &&& settled_kept(a, b)
}

pub proof fn lemma_engine_frame_trans(a: LocalExchange, b: LocalExchange, c: LocalExchange)
    requires
        engine_frame(a, b),
        engine_frame(b, c),
    ensures
        engine_frame(a, c),
{
}

/// Removing a position and adding one of the same symbol keeps symbols unique.
pub proof fn lemma_unique_positions_swap(p: Seq<(String, PositionEx)>, k: int)
    requires
        unique_positions(p),
        0 <= k < p.len(),
    ensures
        unique_positions(p.update(k, p.last()).drop_last()),
        forall|i: int| 0 <= i < p.len() - 1 ==> #[trigger] p.update(k, p.last()).drop_last()[i].0@ != p[k].0@,
{
    let q = p.update(k, p.last()).drop_last();
    assert forall|i: int| 0 <= i < q.len() implies (#[trigger] q[i]) == (if i == k { p[p.len() - 1] } else { p[i] }) by {
    }
    assert forall|i: int, j: int| 0 <= i < q.len() && 0 <= j < q.len() && i != j implies q[i].0@ != q[j].0@ by {
        let ii = if i == k { p.len() - 1 } else { i };
        let jj = if j == k { p.len() - 1 } else { j };
        assert(q[i] == p[ii] && q[j] == p[jj]);
    }
    assert forall|i: int| 0 <= i < q.len() implies #[trigger] q[i].0@ != p[k].0@ by {
        let ii = if i == k { p.len() - 1 } else { i };
        assert(q[i] == p[ii]);
    }
}

pub proof fn lemma_unique_positions_push(p: Seq<(String, PositionEx)>, x: (String, PositionEx))
    requires
        unique_positions(p),
        forall|i: int| 0 <= i < p.len() ==> #[trigger] p[i].0@ != x.0@,
    ensures
        unique_positions(p.push(x)),
{
    let q = p.push(x);
    assert forall|i: int, j: int| 0 <= i < q.len() && 0 <= j < q.len() && i != j implies q[i].0@ != q[j].0@ by {
        if i < p.len() && j < p.len() {
            assert(q[i] == p[i] && q[j] == p[j]);
        } else if i < p.len() {
            assert(q[i] == p[i]);
        } else {
            assert(q[j] == p[j]);
        }
    }
}

impl LocalExchange {
    /// The price a market order fills at: `market_price` moved by the slippage against
    /// the taker, kept within the k-line's `[low, high]`. Fails when the k-line's low
    /// lies above its high.
    pub fn calc_market_price_slippage(&self, side: Side, market_price: Dec, kline: KLine) -> (r: Result<Dec, ExchangeError>)
        ensures
            slipped_price(side, market_price@, self.slippage@) is None ==> r == Err::<Dec, ExchangeError>(ExchangeError::Overflow),
            slipped_price(side, market_price@, self.slippage@) matches Some(p) ==> if kline.low.val() > kline.high.val() {
                r == Err::<Dec, ExchangeError>(ExchangeError::InvalidKLine)
            } else {
                r matches Ok(d) && d@ == clamp_view(p, kline.low@, kline.high@)
            },
    {
        let one = Dec::one();
        let factor = if side == Side::Buy {
            one.checked_add(&self.slippage)
        } else {
            one.checked_sub(&self.slippage)
        };
        let price = match factor {
            Some(f) => market_price.checked_mul(&f),
            None => None,
        };
        let price = match price {
            Some(p) => p,
            None => {
                return Err(ExchangeError::Overflow);
            },
        };
        if kline.low.gt(&kline.high) {
            return Err(ExchangeError::InvalidKLine);
        }
        Ok(price.clamp(kline.low, kline.high))
    }
}

/// The limit fill rules: a buy priced at or above the k-line's open fills at the
/// k-line's high and a sell priced at or below it at the k-line's low (the worst price
/// of the bar); a buy priced below the open but not below the low, and a sell priced
/// above the open but not above the high, fill at their own price; a buy below the
/// low and a sell above the high do not fill. A liquidation order fills at its own
/// price when the k-line reaches it.
pub proof fn lemma_limit_fill_rules(o: OrderEx, k: KLine)
    ensures
        ({
            let p = o.order.price.val();
            &&& o.kind != Kind::Liquidation && o.order.side == Side::Buy && p >= k.open.val() ==> fill_price(o, k)
                == Some(k.high)
            &&& o.kind != Kind::Liquidation && o.order.side == Side::Sell && p <= k.open.val() ==> fill_price(o, k)
                == Some(k.low)
            &&& o.kind != Kind::Liquidation && o.order.side == Side::Buy && k.low.val() <= p < k.open.val() ==> fill_price(
                o,
                k,
            ) == Some(o.order.price)
            &&& o.kind != Kind::Liquidation && o.order.side == Side::Sell && k.open.val() < p <= k.high.val() ==> fill_price(
                o,
                k,
            ) == Some(o.order.price)
            &&& o.kind != Kind::Liquidation && o.order.side == Side::Buy && p < k.low.val() && p < k.open.val() ==> fill_price(
                o,
                k,
            ) is None
            &&& o.kind != Kind::Liquidation && o.order.side == Side::Sell && p > k.high.val() && p > k.open.val() ==> fill_price(
                o,
                k,
            ) is None
            &&& o.kind == Kind::Liquidation ==> (fill_price(o, k) is Some <==> k.low.val() <= p <= k.high.val())
            &&& o.kind == Kind::Liquidation && fill_price(o, k) is Some ==> fill_price(o, k) == Some(o.order.price)
        }),
{
}

/// The price a waiting limit or liquidation order fills at on `k` (see `fill_price`).
pub fn limit_fill_price(o: &OrderEx, k: &KLine) -> (r: Option<Dec>)
    ensures
        r == fill_price(*o, *k),
{
    let p = o.order.price;
    if o.kind == Kind::Liquidation {
        if p.ge(&k.low) && p.le(&k.high) {
            Some(p)
        } else {
            None
        }
    } else if o.order.side == Side::Buy && p.ge(&k.open) {
        Some(k.high)
    } else if o.order.side == Side::Sell && p.le(&k.open) {
        Some(k.low)
    } else if (o.order.side == Side::Buy && k.low.le(&p)) || (o.order.side == Side::Sell && k.high.ge(&p)) {
        Some(p)
    } else {
        None
    }
}

impl LocalExchange {
    /// Removes the waiting order stored under `id`.
    fn take_pending(&mut self, id: &str) -> (r: Option<OrderEx>)
        requires
            old(self).wf(),
        ensures
            final(self).wf(),
            *final(self) == (LocalExchange { pending_order_list: final(self).pending_order_list, ..*old(self) }),
            book_entries(final(self).pending_order_list) == remove_effect(book_entries(old(self).pending_order_list), id@),
            r == pending_entry(*old(self), id@),
            trigger_count(book_entries(final(self).pending_order_list)) <= trigger_count(book_entries(old(self).pending_order_list)),
            r matches Some(o) ==> o.kind == Kind::Trigger ==> trigger_count(book_entries(final(self).pending_order_list)) + 1
                == trigger_count(book_entries(old(self).pending_order_list)),
            user_orders_kept_except(*old(self), *final(self), id@),
            r matches Some(o) ==> o.id@ == id@ && crate::exchange::unfiled(*final(self), id@),
            unfiled_kept(*old(self), *final(self)),
            orders_not_spread(*old(self), *final(self)),
    {
        let ghost e = book_entries(self.pending_order_list);
        let r = book_shift_remove(&mut self.pending_order_list, id);
        proof {
            assert forall|s: Seq<char>| #[trigger] no_orders_of(*old(self), s) implies no_orders_of(*self, s) by {
                crate::book::lemma_free_remove(e, id@, s);
            }
            crate::book::lemma_lookup_removed(e, id@);
            crate::book::lemma_key_position_found(e, id@);
            assert forall|k: Seq<char>| #[trigger] unfiled(*old(self), k) implies unfiled(*self, k) by {
                if k != id@ {
                    crate::book::lemma_lookup_remove(e, id@, k);
                }
            }
            assert forall|k: Seq<char>| k != id@ implies #[trigger] crate::book::lookup(book_entries(self.pending_order_list), k)
                == crate::book::lookup(e, k) by {
                crate::book::lemma_lookup_remove(e, id@, k);
            }
            crate::book::lemma_remove_unique(e, id@);
            crate::book::lemma_remove_all(e, id@, |x: (Seq<char>, OrderEx)| x.0 == x.1.id@);
            crate::book::lemma_remove_all(e, id@, |x: (Seq<char>, OrderEx)| x.1.status == Status::Submitted);
            let ds = self.timeline.data_source@;
            crate::book::lemma_remove_all(e, id@, |x: (Seq<char>, OrderEx)| crate::exchange::source_index(ds, x.1.order.symbol@) < ds.len());
            let cnt = self.id as int;
            crate::book::lemma_remove_all(e, id@, |x: (Seq<char>, OrderEx)| crate::ids::id_below(x.0, cnt));
            assert(crate::book::all_entries(e, |x: (Seq<char>, OrderEx)| crate::ids::id_below(x.0, cnt)));
            assert(crate::book::all_entries(e, |x: (Seq<char>, OrderEx)| x.0 == x.1.id@));
            assert(crate::book::all_entries(e, |x: (Seq<char>, OrderEx)| x.1.status == Status::Submitted));
            assert(crate::book::all_entries(e, |x: (Seq<char>, OrderEx)| crate::exchange::source_index(ds, x.1.order.symbol@) < ds.len()));
            crate::book::lemma_trigger_count_remove_key(e, id@);
        }
        r
    }

    /// Removes the liquidation order stored under `id`; nothing when `id` holds no
    /// liquidation order.
    fn take_liquidation_order(&mut self, id: &str)
        requires
            old(self).wf(),
        ensures
            final(self).wf(),
            *final(self) == (LocalExchange { pending_order_list: final(self).pending_order_list, ..*old(self) }),
            book_entries(final(self).pending_order_list) == (if pending_entry(*old(self), id@) matches Some(o) && o.kind
                == Kind::Liquidation {
                remove_effect(book_entries(old(self).pending_order_list), id@)
            } else {
                book_entries(old(self).pending_order_list)
            }),
            trigger_count(book_entries(final(self).pending_order_list)) <= trigger_count(book_entries(old(self).pending_order_list)),
            user_orders_kept(*old(self), *final(self)),
            unfiled_kept(*old(self), *final(self)),
            orders_not_spread(*old(self), *final(self)),
    {
        let ghost e = book_entries(self.pending_order_list);
        match book_position(&self.pending_order_list, id) {
            Some(p) => {
                proof {
                    crate::book::lemma_key_position(e, id@, p as int);
                }
                if book_value_at(&self.pending_order_list, p).kind == Kind::Liquidation {
                    self.take_pending(id);
                    proof {
                        assert forall|k: Seq<char>| k != id@ implies #[trigger] crate::book::lookup(book_entries(self.pending_order_list), k)
                            == crate::book::lookup(e, k) by {
                            crate::book::lemma_lookup_remove(e, id@, k);
                        }
                        lemma_orders_kept_other_key(e, book_entries(self.pending_order_list), book_entries(self.history_order_list), id@);
                    }
                }
            },
            None => {
                proof {
                    crate::book::lemma_key_position_absent(e, id@);
                }
            },
        }
    }

    /// Files an order, taken out of the book and not filed yet, in the history under
    /// its id.
    fn record_history(&mut self, o: OrderEx)
        requires
            old(self).wf(),
            o.status != Status::Submitted,
            crate::exchange::unfiled(*old(self), o.id@),
        ensures
            final(self).wf(),
            *final(self) == (LocalExchange { history_order_list: final(self).history_order_list, ..*old(self) }),
            book_entries(final(self).history_order_list) == insert_effect(book_entries(old(self).history_order_list), o.id@, o),
            settled_kept(*old(self), *final(self)),
            settled(*final(self), o.id@),
            user_orders_kept(*old(self), *final(self)),
    {
        let ghost h = book_entries(self.history_order_list);
        let ghost og = o;
        book_insert(&mut self.history_order_list, o.id.clone(), o);
        proof {
            assert forall|k: Seq<char>| #[trigger] crate::book::lookup(h, k) is Some implies crate::book::lookup(
                book_entries(self.history_order_list),
                k,
            ) == crate::book::lookup(h, k) by {
                crate::book::lemma_lookup_insert(h, og.id@, og, k);
            }
            crate::book::lemma_lookup_insert(h, og.id@, og, og.id@);
            crate::book::lemma_insert_unique(h, og.id@, og);
            crate::book::lemma_insert_all(h, og.id@, og, |x: (Seq<char>, OrderEx)| x.0 == x.1.id@);
            assert(crate::book::all_entries(h, |x: (Seq<char>, OrderEx)| x.0 == x.1.id@));
            let cnt = self.id as int;
            crate::book::lemma_insert_all(h, og.id@, og, |x: (Seq<char>, OrderEx)| crate::ids::id_below(x.0, cnt));
            assert(crate::book::all_entries(h, |x: (Seq<char>, OrderEx)| crate::ids::id_below(x.0, cnt)));
            let e = book_entries(self.pending_order_list);
            crate::book::lemma_key_position_found(e, og.id@);
            assert forall|i: int| 0 <= i < e.len() implies crate::book::lookup(book_entries(self.history_order_list), #[trigger] e[i].0) is None by {
                crate::book::lemma_lookup_insert(h, og.id@, og, e[i].0);
            }
        }
    }

    /// Moves the waiting order stored under `id` to `side` (when given) and `price`;
    /// `false` when no order has that id.
    pub(crate) fn reprice_pending(&mut self, id: &str, side: Option<Side>, price: Dec) -> (r: bool)
        requires
            old(self).wf(),
        ensures
            final(self).wf(),
            *final(self) == (LocalExchange { pending_order_list: final(self).pending_order_list, ..*old(self) }),
            r == (key_position(book_entries(old(self).pending_order_list), id@) >= 0 && book_entries(
                old(self).pending_order_list,
            )[key_position(book_entries(old(self).pending_order_list), id@)].1.kind == Kind::Liquidation),
            r ==> {
                let e = book_entries(old(self).pending_order_list);
                let p = key_position(e, id@);
                book_entries(final(self).pending_order_list) == e.update(p, (id@, repriced(e[p].1, side, price)))
            },
            !r ==> final(self).pending_order_list == old(self).pending_order_list,
            trigger_count(book_entries(final(self).pending_order_list)) == trigger_count(book_entries(old(self).pending_order_list)),
            user_orders_kept(*old(self), *final(self)),
            unfiled_kept(*old(self), *final(self)),
            orders_not_spread(*old(self), *final(self)),
    {
        let ghost e = book_entries(self.pending_order_list);
        let p = match book_position(&self.pending_order_list, id) {
            Some(p) => p,
            None => {
                proof {
                    crate::book::lemma_key_position_absent(e, id@);
                }
                return false;
            },
        };
        proof {
            crate::book::lemma_key_position(e, id@, p as int);
        }
        if book_value_at(&self.pending_order_list, p).kind != Kind::Liquidation {
            return false;
        }
        let mut o = book_value_at(&self.pending_order_list, p).duplicate();
        o.order.price = price;
        match side {
            Some(s) => {
                o.order.side = s;
            },
            None => {},
        }
        let ghost og = o;
        book_replace_at(&mut self.pending_order_list, p, o);
        proof {
            let e2 = book_entries(self.pending_order_list);
            assert(og == repriced(e[p as int].1, side, price));
            assert(e2 == e.update(p as int, (e[p as int].0, og)));
            assert forall|k: Seq<char>| k != id@ implies #[trigger] crate::book::lookup(e2, k) == crate::book::lookup(e, k) by {
                crate::book::lemma_lookup_update(e, p as int, og, k);
            }
            lemma_orders_kept_other_key(e, e2, book_entries(self.history_order_list), id@);
            crate::book::lemma_trigger_count_update(e, p as int, (id@, og));
            assert forall|i: int, j: int| 0 <= i < e2.len() && 0 <= j < e2.len() && i != j implies e2[i].0 != e2[j].0 by {
                assert(e2[i].0 == e[i].0 && e2[j].0 == e[j].0);
            }
            assert forall|i: int| 0 <= i < e2.len() implies #[trigger] e2[i].0 == e2[i].1.id@ by {
                assert(e[i].0 == e[i].1.id@);
            }
            assert forall|i: int| 0 <= i < e2.len() implies #[trigger] e2[i].1.status == Status::Submitted by {
                assert(e[i].1.status == Status::Submitted);
            }
            let ds = self.timeline.data_source@;
            assert forall|i: int| 0 <= i < e2.len() implies crate::exchange::source_index(ds, #[trigger] e2[i].1.order.symbol@) < ds.len() by {
                assert(crate::exchange::source_index(ds, e[i].1.order.symbol@) < ds.len());
            }
            assert forall|i: int| 0 <= i < e2.len() implies crate::ids::id_below(#[trigger] e2[i].0, self.id as int) by {
                assert(crate::ids::id_below(e[i].0, self.id as int));
            }
            assert forall|s: Seq<char>| #[trigger] no_orders_of(*old(self), s) implies no_orders_of(*self, s) by {
                crate::book::lemma_free_update(e, p as int, og, s);
            }
        }
        true
    }
}

/// The fee of a fill: `price * quantity * rate`.
pub open spec fn fee_spec(price: DecView, quantity: DecView, rate: DecView) -> Option<DecView> {
    opt_mul(crate::decimal::decimal_checked_mul(price, quantity), Some(rate))
}

/// `price * quantity * rate`.
pub fn calc_fee(price: Dec, quantity: Dec, rate: Dec) -> (r: Result<Dec, ExchangeError>)
    ensures
        r is Ok <==> fee_spec(price@, quantity@, rate@) is Some,
        r matches Ok(f) ==> Some(f@) == fee_spec(price@, quantity@, rate@),
        r matches Err(e) ==> e == ExchangeError::Overflow,
{
    match price.checked_mul(&quantity) {
        Some(n) => match n.checked_mul(&rate) {
            Some(f) => Ok(f),
            None => Err(ExchangeError::Overflow),
        },
        None => Err(ExchangeError::Overflow),
    }
}

/// Margin released and profit realised by closing `close_q` of a position at `avg`:
/// the margin in proportion `close_q / quantity`, and the price difference times
/// `close_q` (for a liquidation, the released margin is lost instead).
pub open spec fn close_metrics(pos: crate::order::Position, avg: DecView, kind: Kind, close_q: DecView) -> Option<(DecView, DecView)> {
    let margin = opt_mul(Some(pos.margin@), crate::decimal::decimal_checked_div(close_q, pos.quantity@));
    let profit = if kind == Kind::Liquidation {
        match margin {
            Some(m) => Some((-m.0, m.1)),
            None => None,
        }
    } else if pos.side == Side::Buy {
        opt_mul(decimal_checked_sub(avg, pos.open_avg_price@), Some(close_q))
    } else {
        opt_mul(decimal_checked_sub(pos.open_avg_price@, avg), Some(close_q))
    };
    match (margin, profit) {
        (Some(m), Some(p)) => Some((m, p)),
        _ => None,
    }
}

/// A short mirrors a long: closing a short entered at `e` at the price `c` releases the
/// same margin and realises the same profit as closing a long (with the same margin and
/// quantity) entered at `c` at the price `e`; so a short profits from a fall in price
/// exactly as a long does from a rise.
pub proof fn lemma_close_metrics_mirror(pos: crate::order::Position, c: Dec, close_q: DecView, kind: Kind)
    requires
        pos.side == Side::Sell,
        kind != Kind::Liquidation,
    ensures
        close_metrics(pos, c@, kind, close_q) == close_metrics(
            crate::order::Position { side: Side::Buy, open_avg_price: c, ..pos },
            pos.open_avg_price@,
            kind,
            close_q,
        ),
{
}

/// When closing needs no rounding, the price difference `d` that was computed has the
/// exact value, at most the prices' precision, and a mantissa whose product with the
/// quantity's fits in 96 bits; so the product is computed exactly.
proof fn lemma_exact_product(pos: crate::order::Position, avg: Dec, close_q: Dec, d: Dec)
    requires
        close_profit_exact(pos, avg, close_q),
        d.val() == side_price_gain(pos.side, pos.open_avg_price, avg) || !crate::decimal::fits_at_scale(
            side_price_gain(pos.side, pos.open_avg_price, avg),
            crate::decimal::max_nat(pos.open_avg_price@.1, avg@.1),
        ),
        d@.1 <= crate::decimal::max_nat(pos.open_avg_price@.1, avg@.1),
    ensures
        d@.1 + close_q@.1 <= 28,
        -crate::decimal::mantissa_limit() < d@.0 * close_q@.0 < crate::decimal::mantissa_limit(),
        d@.0 * close_q@.0 == 0 ==> (d.val() == 0 || close_q.val() == 0),
        d@.0 * close_q@.0 != 0 ==> crate::decimal::dec_value((d@.0 * close_q@.0, (d@.1 + close_q@.1) as nat))
            * crate::decimal::pow10(28) == d.val() * close_q.val(),
{
    let s = crate::decimal::max_nat(pos.open_avg_price@.1, avg@.1);
    crate::decimal::lemma_mantissa_product_bound(d@, s, close_q@.0);
    crate::decimal::lemma_pow10_pos((28 - d@.1) as nat);
    crate::decimal::lemma_pow10_pos((28 - close_q@.1) as nat);
    if d@.0 == 0 {
        assert(d.val() == 0);
    } else if close_q@.0 == 0 {
        assert(close_q.val() == 0);
    } else {
        vstd::arithmetic::mul::lemma_mul_nonzero(d@.0, close_q@.0);
        crate::decimal::lemma_product_value(d@, close_q@);
    }
}

/// What one unit of a position of `side` entered at `open` gains when it is closed at
/// `close`, in units of 10^-28: the rise in price for a long, the fall for a short.
pub open spec fn side_price_gain(side: Side, open: Dec, close: Dec) -> int {
    if side == Side::Buy {
        close.val() - open.val()
    } else {
        open.val() - close.val()
    }
}

/// Closing `close_q` at `avg` realises `side_price_gain * close_q` with no rounding:
/// the price difference fits at the prices' precision and its product with the
/// quantity fits too.
pub open spec fn close_profit_exact(pos: crate::order::Position, avg: Dec, close_q: Dec) -> bool {
    let s = crate::decimal::max_nat(pos.open_avg_price@.1, avg@.1);
    let g = side_price_gain(pos.side, pos.open_avg_price, avg);
    let bound = crate::decimal::mantissa_limit() * crate::decimal::pow10((28 - s) as nat);
    &&& crate::decimal::fits_at_scale(g, s)
    &&& s + close_q@.1 <= 28
    &&& -bound < g * close_q@.0 < bound
}

/// A position realises a profit exactly when the price moved its way: a short closed
/// below its entry price, or a long closed above it, gains; the other way round, it
/// loses (for a positive quantity, whenever the profit is the exact gain per unit times
/// the quantity, as `calc_close_metrics` gives it when no step rounds).
pub proof fn lemma_close_profit_sign(pos: crate::order::Position, avg: Dec, close_q: Dec, profit: Dec)
    requires
        close_q.val() > 0,
        profit.val() * crate::decimal::pow10(28) == side_price_gain(pos.side, pos.open_avg_price, avg) * close_q.val(),
    ensures
        pos.side == Side::Sell && avg.val() < pos.open_avg_price.val() ==> profit.val() > 0,
        pos.side == Side::Sell && avg.val() > pos.open_avg_price.val() ==> profit.val() < 0,
        pos.side == Side::Buy && avg.val() > pos.open_avg_price.val() ==> profit.val() > 0,
        pos.side == Side::Buy && avg.val() < pos.open_avg_price.val() ==> profit.val() < 0,
{
    crate::decimal::lemma_pow10_pos(28);
    let g = side_price_gain(pos.side, pos.open_avg_price, avg);
    let p = crate::decimal::pow10(28) as int;
    if g > 0 {
        assert(profit.val() > 0) by (nonlinear_arith)
            requires
                profit.val() * p == g * close_q.val(),
                g > 0,
                close_q.val() > 0,
                p > 0,
        ;
    } else if g < 0 {
        assert(profit.val() < 0) by (nonlinear_arith)
            requires
                profit.val() * p == g * close_q.val(),
                g < 0,
                close_q.val() > 0,
                p > 0,
        ;
    }
}

/// The released margin and realised profit of closing `close_q` (see `close_metrics`).
/// Outside a liquidation, the profit is what each unit gains from the entry price to
/// `avg` on the position's side, times `close_q`: exactly so whenever no step rounds.
pub fn calc_close_metrics(pos: &crate::order::Position, avg: Dec, kind: Kind, close_q: Dec) -> (r: Result<(Dec, Dec), ExchangeError>)
    ensures
        r is Ok <==> close_metrics(*pos, avg@, kind, close_q@) is Some,
        r matches Ok(mp) ==> close_metrics(*pos, avg@, kind, close_q@) == Some((mp.0@, mp.1@)),
        r matches Err(e) ==> e == ExchangeError::Overflow,
        kind != Kind::Liquidation && close_profit_exact(*pos, avg, close_q) ==> (r matches Ok(mp) ==> mp.1.val()
            * crate::decimal::pow10(28) == side_price_gain(pos.side, pos.open_avg_price, avg) * close_q.val()),
{
    let ratio = close_q.checked_div(&pos.quantity);
    let margin = match ratio {
        Some(x) => pos.margin.checked_mul(&x),
        None => None,
    };
    let margin = match margin {
        Some(m) => m,
        None => {
            return Err(ExchangeError::Overflow);
        },
    };
    let profit = if kind == Kind::Liquidation {
        Some(margin.neg())
    } else if pos.side == Side::Buy {
        match avg.checked_sub(&pos.open_avg_price) {
            Some(d) => {
                proof {
                    if close_profit_exact(*pos, avg, close_q) {
                        lemma_exact_product(*pos, avg, close_q, d);
                    }
                }
                let m = d.checked_mul(&close_q);
                proof {
                    if close_profit_exact(*pos, avg, close_q) {
                        assert(d.val() == side_price_gain(pos.side, pos.open_avg_price, avg));
                        if d@.0 * close_q@.0 != 0 {
                            assert(m.unwrap().val() * crate::decimal::pow10(28) == d.val() * close_q.val());
                        } else {
                            assert(m.unwrap().val() == 0);
                            if d.val() == 0 {
                                vstd::arithmetic::mul::lemma_mul_by_zero_is_zero(close_q.val());
                            } else {
                                vstd::arithmetic::mul::lemma_mul_by_zero_is_zero(d.val());
                            }
                            assert(d.val() * close_q.val() == 0);
                        }
                    }
                }
                m
            },
            None => None,
        }
    } else {
        match pos.open_avg_price.checked_sub(&avg) {
            Some(d) => {
                proof {
                    if close_profit_exact(*pos, avg, close_q) {
                        lemma_exact_product(*pos, avg, close_q, d);
                    }
                }
                let m = d.checked_mul(&close_q);
                proof {
                    if close_profit_exact(*pos, avg, close_q) {
                        assert(d.val() == side_price_gain(pos.side, pos.open_avg_price, avg));
                        if d@.0 * close_q@.0 != 0 {
                            assert(m.unwrap().val() * crate::decimal::pow10(28) == d.val() * close_q.val());
                        } else {
                            assert(m.unwrap().val() == 0);
                            if d.val() == 0 {
                                vstd::arithmetic::mul::lemma_mul_by_zero_is_zero(close_q.val());
                            } else {
                                vstd::arithmetic::mul::lemma_mul_by_zero_is_zero(d.val());
                            }
                            assert(d.val() * close_q.val() == 0);
                        }
                    }
                }
                m
            },
            None => None,
        }
    };
    match profit {
        Some(p) => Ok((margin, p)),
        None => Err(ExchangeError::Overflow),
    }
}

/// Unrealised profit of a position marked at `close`.
pub open spec fn unrealized_profit(side: Side, open: DecView, close: DecView, quantity: DecView) -> Option<DecView> {
    if side == Side::Buy {
        opt_mul(decimal_checked_sub(close, open), Some(quantity))
    } else {
        opt_mul(decimal_checked_sub(open, close), Some(quantity))
    }
}

/// The entry price after adding `q` at `avg` to `old_q` at `open`: the
/// quantity-weighted average.
pub open spec fn added_avg_price(old_q: DecView, open: DecView, q: DecView, avg: DecView) -> Option<DecView> {
    crate::margin::opt_div(
        opt_add(crate::decimal::decimal_checked_mul(old_q, open), crate::decimal::decimal_checked_mul(q, avg)),
        decimal_checked_add(old_q, q),
    )
}

/// The key of the entry stored under `k` after inserting `v` under `k` is `k`, and the
/// value is `v`.
pub proof fn lemma_insert_lookup(e: Seq<(Seq<char>, OrderEx)>, k: Seq<char>, v: OrderEx)
    requires
        unique_keys(e),
    ensures
        key_position(insert_effect(e, k, v), k) >= 0,
        insert_effect(e, k, v)[key_position(insert_effect(e, k, v), k)].1 == v,
{
    crate::book::lemma_key_position_found(e, k);
    crate::book::lemma_insert_unique(e, k, v);
    let r = insert_effect(e, k, v);
    let p = if key_position(e, k) >= 0 { key_position(e, k) } else { e.len() as int };
    assert(r[p].0 == k && r[p].1 == v);
    crate::book::lemma_key_position(r, k, p);
}

/// The order under `id` is filed in the history entries `h` with a final status.
pub open spec fn settled_in(h: Seq<(Seq<char>, OrderEx)>, id: Seq<char>) -> bool {
    crate::book::lookup(h, id) matches Some(o) && o.status != Status::Submitted
}

/// The order is filed in the history with a final status.
pub open spec fn settled(ex: LocalExchange, id: Seq<char>) -> bool {
    settled_in(book_entries(ex.history_order_list), id)
}

/// Every entry of the history `h1` is unchanged in `h2`.
pub open spec fn history_kept(h1: Seq<(Seq<char>, OrderEx)>, h2: Seq<(Seq<char>, OrderEx)>) -> bool {
    forall|k: Seq<char>| #[trigger] crate::book::lookup(h1, k) is Some ==> crate::book::lookup(h2, k) == crate::book::lookup(h1, k)
}

/// Every order filed in the history of `a` is filed unchanged in `b`.
pub open spec fn settled_kept(a: LocalExchange, b: LocalExchange) -> bool {
    history_kept(book_entries(a.history_order_list), book_entries(b.history_order_list))
}

/// A user order (trigger, market or limit).
pub open spec fn is_user_order(o: Option<OrderEx>) -> bool {
    o matches Some(x) && (x.kind == Kind::Trigger || x.kind == Kind::Market || x.kind == Kind::Limit)
}

/// Every user order waiting in `e1`, but the one under `except`, still waits unchanged
/// in `e2`.
pub open spec fn orders_kept_except(
    e1: Seq<(Seq<char>, OrderEx)>,
    e2: Seq<(Seq<char>, OrderEx)>,
    h2: Seq<(Seq<char>, OrderEx)>,
    except: Seq<char>,
) -> bool {
    forall|k: Seq<char>| k != except && is_user_order(#[trigger] crate::book::lookup(e1, k)) ==> crate::book::lookup(e2, k)
        == crate::book::lookup(e1, k)
}

/// Every user order waiting in `e1` still waits unchanged in `e2`.
pub open spec fn orders_kept(e1: Seq<(Seq<char>, OrderEx)>, e2: Seq<(Seq<char>, OrderEx)>, h2: Seq<(Seq<char>, OrderEx)>) -> bool {
    forall|k: Seq<char>| is_user_order(#[trigger] crate::book::lookup(e1, k)) ==> crate::book::lookup(e2, k)
        == crate::book::lookup(e1, k)
}

/// Every user order waiting in `a` still waits unchanged in `b`.
pub open spec fn user_orders_kept(a: LocalExchange, b: LocalExchange) -> bool {
    orders_kept(book_entries(a.pending_order_list), book_entries(b.pending_order_list), book_entries(b.history_order_list))
}

/// The same, but for the order under `except`.
pub open spec fn user_orders_kept_except(a: LocalExchange, b: LocalExchange, except: Seq<char>) -> bool {
    orders_kept_except(
        book_entries(a.pending_order_list),
        book_entries(b.pending_order_list),
        book_entries(b.history_order_list),
        except,
    )
}

/// Changing the entries at a key that holds no user order keeps every user order.
pub proof fn lemma_orders_kept_other_key(e1: Seq<(Seq<char>, OrderEx)>, e2: Seq<(Seq<char>, OrderEx)>, h: Seq<(Seq<char>, OrderEx)>, x: Seq<char>)
    requires
        !is_user_order(crate::book::lookup(e1, x)),
        forall|k: Seq<char>| k != x ==> #[trigger] crate::book::lookup(e2, k) == crate::book::lookup(e1, k),
    ensures
        orders_kept(e1, e2, h),
{
    assert forall|k: Seq<char>| is_user_order(#[trigger] crate::book::lookup(e1, k)) implies crate::book::lookup(e2, k)
        == crate::book::lookup(e1, k) by {
        assert(k != x);
    }
}

impl LocalExchange {
    /// Adjusts an order's frozen margin to its fill price: the difference to the
    /// margin at `avg_price` is refunded or taken from the cash balance. Nothing
    /// changes for reduce-only orders and orders without frozen margin.
    fn adjust_freeze_margin_by_avg_price(&mut self, o: &mut OrderEx, leverage: u32) -> (r: Result<(), ExchangeError>)
        requires
            old(self).wf(),
        ensures
            final(self).wf(),
            r is Err ==> *final(self) == *old(self) && *final(o) == *old(o),
            r matches Err(e) ==> e == ExchangeError::CashShortage || e == ExchangeError::Overflow,
            *final(self) == (LocalExchange { cash: final(self).cash, ..*old(self) }),
            *final(o) == (OrderEx { freeze_margin: final(o).freeze_margin, ..*old(o) }),
            (old(o).order.reduce_only || old(o).freeze_margin.val() == 0) ==> r is Ok && *final(self) == *old(self)
                && *final(o) == *old(o),
            r is Ok && !(old(o).order.reduce_only || old(o).freeze_margin.val() == 0) ==> {
                let filled = crate::margin::initial_margin_spec(old(o).avg_price@, old(o).order.quantity@, leverage).unwrap();
                let held = old(o).freeze_margin;
                &&& Some(final(o).freeze_margin@) == crate::margin::initial_margin_spec(old(o).avg_price@, old(o).order.quantity@, leverage)
                &&& held.val() > dec_value(filled) ==> Some(final(self).cash@) == opt_add(Some(old(self).cash@), decimal_checked_sub(held@, filled))
                &&& held.val() < dec_value(filled) ==> Some(final(self).cash@) == crate::margin::opt_sub(Some(old(self).cash@), decimal_checked_sub(filled, held@))
                &&& held.val() == dec_value(filled) ==> final(self).cash == old(self).cash
            },
            !(old(o).order.reduce_only || old(o).freeze_margin.val() == 0) ==> {
                let held = old(o).freeze_margin@;
                let cash = old(self).cash@;
                match crate::margin::initial_margin_spec(old(o).avg_price@, old(o).order.quantity@, leverage) {
                    None => r == Err::<(), ExchangeError>(ExchangeError::Overflow),
                    Some(filled) => if dec_value(held) > dec_value(filled) {
                        match opt_add(Some(cash), decimal_checked_sub(held, filled)) {
                            None => r == Err::<(), ExchangeError>(ExchangeError::Overflow),
                            Some(c) => r is Ok && final(self).cash@ == c && final(o).freeze_margin@ == filled,
                        }
                    } else if dec_value(held) < dec_value(filled) {
                        match decimal_checked_sub(filled, held) {
                            None => r == Err::<(), ExchangeError>(ExchangeError::Overflow),
                            Some(need) => if short_of(cash, need) {
                                r == Err::<(), ExchangeError>(ExchangeError::CashShortage)
                            } else {
                                match decimal_checked_sub(cash, need) {
                                    None => r == Err::<(), ExchangeError>(ExchangeError::Overflow),
                                    Some(c) => r is Ok && final(self).cash@ == c && final(o).freeze_margin@ == filled,
                                }
                            },
                        }
                    } else {
                        r is Ok && final(self).cash == old(self).cash && final(o).freeze_margin@ == filled
                    },
                }
            },
    {
        if o.order.reduce_only || o.freeze_margin.is_zero() {
            return Ok(());
        }
        let filled = match crate::margin::checked_calc_initial_margin(o.avg_price, o.order.quantity, leverage) {
            Some(f) => f,
            None => {
                return Err(ExchangeError::Overflow);
            },
        };
        if o.freeze_margin.gt(&filled) {
            let refund = match o.freeze_margin.checked_sub(&filled) {
                Some(d) => d,
                None => {
                    return Err(ExchangeError::Overflow);
                },
            };
            let cash = match self.cash.checked_add(&refund) {
                Some(c) => c,
                None => {
                    return Err(ExchangeError::Overflow);
                },
            };
            self.cash = cash;
        } else if o.freeze_margin.lt(&filled) {
            let need = match filled.checked_sub(&o.freeze_margin) {
                Some(d) => d,
                None => {
                    return Err(ExchangeError::Overflow);
                },
            };
            self.need_cash(need)?;
        }
        o.freeze_margin = filled;
        Ok(())
    }
}

/// The position of `sym`, if any.
pub open spec fn position_of(ex: LocalExchange, sym: Seq<char>) -> Option<PositionEx> {
    entry_of(ex.position@, sym)
}

/// The position of `sym` in the list `p`, if any.
pub open spec fn entry_of(p: Seq<(String, PositionEx)>, sym: Seq<char>) -> Option<PositionEx> {
    let k = position_index(p, sym);
    if k < p.len() {
        Some(p[k].1)
    } else {
        None
    }
}

/// In a list without two positions of one symbol, the position of a symbol is found
/// where its entry stands.
pub proof fn lemma_position_index_unique(p: Seq<(String, PositionEx)>, sym: Seq<char>, i: int)
    requires
        unique_positions(p),
        0 <= i < p.len(),
        p[i].0@ == sym,
    ensures
        position_index(p, sym) == i,
{
    crate::exchange::lemma_position_index_from(p, sym, 0);
    if position_index(p, sym) < i {
        assert(p[position_index(p, sym)].0@ == sym);
    }
}

/// Taking the position of `sym` out of the list (swapping the last entry into its
/// place) and pushing `e` (when given) keeps the position of every other symbol.
pub proof fn lemma_other_positions_kept(
    p: Seq<(String, PositionEx)>,
    k: int,
    e: Option<(String, PositionEx)>,
    sym: Seq<char>,
    other: Seq<char>,
)
    requires
        unique_positions(p),
        0 <= k < p.len(),
        p[k].0@ == sym,
        e matches Some(x) ==> x.0@ == sym,
        other != sym,
    ensures
        ({
            let q = p.update(k, p.last()).drop_last();
            entry_of(match e { Some(x) => q.push(x), None => q }, other) == entry_of(p, other)
        }),
{
    let q = p.update(k, p.last()).drop_last();
    let f = match e { Some(x) => q.push(x), None => q };
    lemma_unique_positions_swap(p, k);
    crate::exchange::lemma_position_index_from(p, other, 0);
    crate::exchange::lemma_position_index_from(f, other, 0);
    assert forall|j: int| 0 <= j < q.len() implies (#[trigger] q[j]) == (if j == k { p[p.len() - 1] } else { p[j] }) by {}
    let i = position_index(p, other);
    if i < p.len() {
        let j = if i == p.len() - 1 { k } else { i };
        assert(i != k);
        assert(q[j] == p[i]);
        assert(f[j] == q[j]);
        if let Some(x) = e {
            lemma_unique_positions_push(q, x);
        }
        lemma_position_index_unique(f, other, j);
    } else {
        let fi = position_index(f, other);
        if fi < f.len() {
            if fi < q.len() {
                let pi = if fi == k { p.len() - 1 } else { fi };
                assert(f[fi] == q[fi]);
                assert(p[pi].0@ == other);
                assert(p[pi].0@ != other);
            } else {
                assert(f[fi].0@ == sym);
            }
        }
    }
}

/// Pushing the entry of `sym` keeps the position of every other symbol.
pub proof fn lemma_push_keeps_others(p: Seq<(String, PositionEx)>, x: (String, PositionEx), sym: Seq<char>, other: Seq<char>)
    requires
        no_position(p, sym),
        x.0@ == sym,
        other != sym,
    ensures
        entry_of(p.push(x), other) == entry_of(p, other),
{
    let f = p.push(x);
    crate::exchange::lemma_position_index_from(p, other, 0);
    crate::exchange::lemma_position_index_from(f, other, 0);
    let i = position_index(p, other);
    let fi = position_index(f, other);
    if i < p.len() {
        assert(f[i] == p[i]);
        assert(fi <= i);
        assert(f[fi] == p[fi]);
    } else if fi < f.len() {
        if fi < p.len() {
            assert(f[fi] == p[fi]);
        }
    }
}

/// What the checks before a fill decide: the order fills (as it then stands, with its
/// frozen margin and the cash balance left by the checks), or it is filed with a
/// final status instead (with its frozen margin and the cash balance after), or a
/// decimal computation overflows.
pub enum FillCheck {
    Go(OrderEx, DecView, DecView),
    Filed(OrderEx, DecView, DecView),
    Overflow,
}

/// A user order (trigger, market or limit) by its kind.
pub open spec fn user_kind(k: Kind) -> bool {
    k == Kind::Trigger || k == Kind::Market || k == Kind::Limit
}

/// Taking `need` from `cash` fails for want of cash.
pub open spec fn short_of(cash: DecView, need: DecView) -> bool {
    dec_value(need) != 0 && dec_value(cash) < dec_value(need)
}

/// `o` with the given status.
pub open spec fn with_status(o: OrderEx, status: Status) -> OrderEx {
    OrderEx { status, ..o }
}

/// `o` rejected, its frozen margin `freeze` returned to `cash`.
pub open spec fn refund_reject(o: OrderEx, freeze: DecView, cash: DecView) -> FillCheck {
    match decimal_checked_add(cash, freeze) {
        Some(c) => FillCheck::Filed(with_status(o, Status::Rejected), freeze, c),
        None => FillCheck::Overflow,
    }
}

/// The last check: the fee (`fee_spec`) is taken from the cash balance. A user order
/// whose fee the balance does not cover is rejected; a liquidation pays it anyway.
pub open spec fn fee_stage(o: OrderEx, freeze: DecView, cash: DecView, rate: DecView) -> FillCheck {
    match fee_spec(o.avg_price@, o.order.quantity@, rate) {
        None => FillCheck::Overflow,
        Some(fee) => if short_of(cash, fee) && user_kind(o.kind) {
            refund_reject(o, freeze, cash)
        } else {
            match decimal_checked_sub(cash, fee) {
                Some(c) => FillCheck::Go(o, freeze, c),
                None => FillCheck::Overflow,
            }
        },
    }
}

/// A user order whose notional falls below a nonzero minimum is rejected; then the
/// fee check.
pub open spec fn notional_stage(o: OrderEx, freeze: DecView, cash: DecView, min_notional: DecView, rate: DecView) -> FillCheck {
    if user_kind(o.kind) && dec_value(min_notional) != 0 {
        match crate::decimal::decimal_checked_mul(o.avg_price@, o.order.quantity@) {
            None => FillCheck::Overflow,
            Some(n) => if dec_value(n) < dec_value(min_notional) {
                refund_reject(o, freeze, cash)
            } else {
                fee_stage(o, freeze, cash, rate)
            },
        }
    } else {
        fee_stage(o, freeze, cash, rate)
    }
}

/// An order filling away from its own price, that is not reduce-only and has margin
/// frozen, has that margin moved to the margin at the fill price: the excess returns
/// to the cash balance, the shortfall is taken from it (the order is rejected when
/// the balance does not cover it). Then the notional check.
pub open spec fn adjust_stage(
    o: OrderEx,
    freeze: DecView,
    cash: DecView,
    leverage: u32,
    min_notional: DecView,
    rate: DecView,
) -> FillCheck {
    if o.avg_price.val() == o.order.price.val() || o.order.reduce_only || dec_value(freeze) == 0 {
        notional_stage(o, freeze, cash, min_notional, rate)
    } else {
        match crate::margin::initial_margin_spec(o.avg_price@, o.order.quantity@, leverage) {
            None => FillCheck::Overflow,
            Some(filled) => if dec_value(freeze) > dec_value(filled) {
                match opt_add(Some(cash), decimal_checked_sub(freeze, filled)) {
                    Some(c) => notional_stage(o, filled, c, min_notional, rate),
                    None => FillCheck::Overflow,
                }
            } else if dec_value(freeze) < dec_value(filled) {
                match decimal_checked_sub(filled, freeze) {
                    None => FillCheck::Overflow,
                    Some(need) => if short_of(cash, need) {
                        refund_reject(o, freeze, cash)
                    } else {
                        match decimal_checked_sub(cash, need) {
                            Some(c) => notional_stage(o, filled, c, min_notional, rate),
                            None => FillCheck::Overflow,
                        }
                    },
                }
            } else {
                notional_stage(o, filled, cash, min_notional, rate)
            },
        }
    }
}

/// The checks before the order `o` fills on `ex` with the fee rate `rate` (see
/// `pre_execution_check`).
pub open spec fn pre_check(ex: LocalExchange, o: OrderEx, rate: DecView) -> FillCheck {
    let sym = o.order.symbol@;
    let leverage = ex.leverage_spec(sym);
    let min_notional = ex.metadata_of(sym).min_notional@;
    let cash = ex.cash@;
    if o.order.reduce_only {
        match position_of(ex, sym) {
            None => FillCheck::Filed(
                with_time(with_status(o, Status::Canceled), ex.kline_spec(sym).time),
                o.freeze_margin@,
                cash,
            ),
            Some(pe) => if pe.position.side == o.order.side {
                FillCheck::Filed(with_status(o, Status::Canceled), o.freeze_margin@, cash)
            } else {
                adjust_stage(
                    with_quantity(o, o.order.quantity.spec_min(pe.position.quantity)),
                    o.freeze_margin@,
                    cash,
                    leverage,
                    min_notional,
                    rate,
                )
            },
        }
    } else if o.freeze_margin.val() == 0 {
        match crate::margin::initial_margin_spec(o.order.price@, o.order.quantity@, leverage) {
            None => FillCheck::Overflow,
            Some(f) => if short_of(cash, f) {
                FillCheck::Filed(with_status(o, Status::Rejected), o.freeze_margin@, cash)
            } else {
                match decimal_checked_sub(cash, f) {
                    Some(c) => adjust_stage(o, f, c, leverage, min_notional, rate),
                    None => FillCheck::Overflow,
                }
            },
        }
    } else {
        adjust_stage(o, o.freeze_margin@, cash, leverage, min_notional, rate)
    }
}

/// `o` filled in full.
pub open spec fn filled_order(o: OrderEx) -> OrderEx {
    OrderEx { status: Status::Filled, cumulative_quantity: o.order.quantity, ..o }
}

/// `o` updated at `time`.
pub open spec fn with_time(o: OrderEx, time: u64) -> OrderEx {
    OrderEx { update_time: time, ..o }
}

/// `o` with its quantity set to `q`.
pub open spec fn with_quantity(o: OrderEx, q: Dec) -> OrderEx {
    OrderEx { order: Order { quantity: q, ..o.order }, ..o }
}

/// `o` as `x` with the frozen margin of `o`: the two differ at most in that margin.
pub open spec fn same_but_freeze(o: OrderEx, x: OrderEx) -> bool {
    o == (OrderEx { freeze_margin: o.freeze_margin, ..x })
}

impl LocalExchange {
    /// The checks before an order fills, in this order. A reduce-only order is
    /// cancelled when there is no position or the position has its side, and is cut
    /// to the position's quantity otherwise. Any other order without frozen margin
    /// has its margin frozen now, or is rejected. The frozen margin is then adjusted
    /// to the fill price. A user order below the minimum notional, or one whose fee
    /// the cash balance does not cover, is rejected and its margin refunded; the fee
    /// of a liquidation is charged in any case (see `pre_check`). `Ok(false)`: the
    /// order was filed in the history and must not fill.
    #[verifier::rlimit(60)]
    #[verifier::spinoff_prover]
    fn pre_execution_check(&mut self, o: &mut OrderEx, fee_rate: Dec) -> (r: Result<bool, ExchangeError>)
        requires
            old(self).wf(),
            old(self).has_symbol(old(o).order.symbol@),
            unfiled(*old(self), old(o).id@),
        ensures
            final(self).wf(),
            engine_frame(*old(self), *final(self)),
            r == Ok::<bool, ExchangeError>(true) ==> unfiled(*final(self), final(o).id@),
            user_orders_kept(*old(self), *final(self)),
            final(self).pending_order_list == old(self).pending_order_list,
            final(self).position == old(self).position,
            final(self).history_position_list == old(self).history_position_list,
            final(self).id == old(self).id,
            final(o).id == old(o).id,
            final(o).kind == old(o).kind,
            final(o).order.symbol == old(o).order.symbol,
            final(o).order.side == old(o).order.side,
            final(o).order.reduce_only == old(o).order.reduce_only,
            final(o).avg_price == old(o).avg_price,
            r matches Err(e) ==> e == ExchangeError::Overflow,
            r == Ok::<bool, ExchangeError>(false) ==> (final(o).status == Status::Canceled || final(o).status == Status::Rejected)
                && book_entries(final(self).history_order_list) == insert_effect(
                book_entries(old(self).history_order_list),
                final(o).id@,
                *final(o),
            ),
            r == Ok::<bool, ExchangeError>(true) ==> final(self).history_order_list == old(self).history_order_list
                && final(o).status == old(o).status,
            old(o).order.reduce_only && (position_of(*old(self), old(o).order.symbol@) is None || position_of(
                *old(self),
                old(o).order.symbol@,
            ).unwrap().position.side == old(o).order.side) ==> r == Ok::<bool, ExchangeError>(false)
                && final(o).status == Status::Canceled,
            r == Ok::<bool, ExchangeError>(true) && old(o).order.reduce_only ==> ({
                let pos = position_of(*old(self), old(o).order.symbol@).unwrap().position;
                &&& position_of(*old(self), old(o).order.symbol@) is Some
                &&& pos.side != old(o).order.side
                &&& final(o).order.quantity == old(o).order.quantity.spec_min(pos.quantity)
            }),
            match pre_check(*old(self), *old(o), fee_rate@) {
                FillCheck::Go(x, freeze, cash) => r == Ok::<bool, ExchangeError>(true) && same_but_freeze(*final(o), x)
                    && final(o).freeze_margin@ == freeze && final(self).cash@ == cash,
                FillCheck::Filed(x, freeze, cash) => r == Ok::<bool, ExchangeError>(false) && same_but_freeze(*final(o), x)
                    && final(o).freeze_margin@ == freeze && final(self).cash@ == cash,
                FillCheck::Overflow => r == Err::<bool, ExchangeError>(ExchangeError::Overflow),
            },
    {
        let ghost s0 = *self;
        let ghost o0 = *o;
        let min_notional = match self.get_metadata(o.order.symbol.as_str()) {
            Ok(md) => md.min_notional,
            Err(_) => {
                return Err(ExchangeError::Overflow);
            },
        };
        let leverage = self.leverage_of(o.order.symbol.as_str());
        if o.order.reduce_only {
            match self.find_position(o.order.symbol.as_str()) {
                Some(k) => {
                    if self.position[k].1.position.side == o.order.side {
                        o.status = Status::Canceled;
                        self.record_history(o.duplicate());
                        return Ok(false);
                    }
                    o.order.quantity = o.order.quantity.min(self.position[k].1.position.quantity);
                },
                None => {
                    o.status = Status::Canceled;
                    o.update_time = self.kline(o.order.symbol.as_str()).time;
                    self.record_history(o.duplicate());
                    return Ok(false);
                },
            }
        } else if o.freeze_margin.is_zero() {
            let f = match crate::margin::checked_calc_initial_margin(o.order.price, o.order.quantity, leverage) {
                Some(f) => f,
                None => {
                    return Err(ExchangeError::Overflow);
                },
            };
            match self.need_cash(f) {
                Ok(()) => {
                    o.freeze_margin = f;
                },
                Err(ExchangeError::CashShortage) => {
                    o.status = Status::Rejected;
                    self.record_history(o.duplicate());
                    return Ok(false);
                },
                Err(_) => {
                    return Err(ExchangeError::Overflow);
                },
            }
        }
        let ghost x1 = OrderEx { freeze_margin: o0.freeze_margin, ..*o };
        let ghost c1 = self.cash@;
        let ghost f1 = o.freeze_margin@;
        assert(pre_check(s0, o0, fee_rate@) == adjust_stage(x1, f1, c1, leverage, min_notional@, fee_rate@));
        if !o.avg_price.eq_val(&o.order.price) {
            match self.adjust_freeze_margin_by_avg_price(o, leverage) {
                Ok(()) => {},
                Err(ExchangeError::CashShortage) => {
                    assert(pre_check(s0, o0, fee_rate@) == refund_reject(x1, f1, c1));
                    self.refund_and_reject(o)?;
                    return Ok(false);
                },
                Err(_) => {
                    assert(pre_check(s0, o0, fee_rate@) == FillCheck::Overflow);
                    return Err(ExchangeError::Overflow);
                },
            }
        }
        if o.kind.is_normal() && !min_notional.is_zero() {
            let notional = match o.avg_price.checked_mul(&o.order.quantity) {
                Some(n) => n,
                None => {
                    return Err(ExchangeError::Overflow);
                },
            };
            if notional.lt(&min_notional) {
                self.refund_and_reject(o)?;
                return Ok(false);
            }
        }
        let fee = calc_fee(o.avg_price, o.order.quantity, fee_rate)?;
        match self.need_cash(fee) {
            Ok(()) => {},
            Err(ExchangeError::CashShortage) => {
                if o.kind.is_normal() {
                    self.refund_and_reject(o)?;
                    return Ok(false);
                }
                self.cash = match self.cash.checked_sub(&fee) {
                    Some(c) => c,
                    None => {
                        return Err(ExchangeError::Overflow);
                    },
                };
            },
            Err(_) => {
                return Err(ExchangeError::Overflow);
            },
        }
        Ok(true)
    }

    /// Returns an order's frozen margin to the cash balance and files it as rejected.
    fn refund_and_reject(&mut self, o: &mut OrderEx) -> (r: Result<(), ExchangeError>)
        requires
            old(self).wf(),
            unfiled(*old(self), old(o).id@),
        ensures
            final(self).wf(),
            engine_frame(*old(self), *final(self)),
            user_orders_kept(*old(self), *final(self)),
            final(self).pending_order_list == old(self).pending_order_list,
            final(self).position == old(self).position,
            final(self).history_position_list == old(self).history_position_list,
            final(self).id == old(self).id,
            *final(o) == (OrderEx { status: Status::Rejected, ..*old(o) }),
            r matches Err(e) ==> e == ExchangeError::Overflow,
            r is Err <==> decimal_checked_add(old(self).cash@, old(o).freeze_margin@) is None,
            r is Ok ==> Some(final(self).cash@) == decimal_checked_add(old(self).cash@, old(o).freeze_margin@)
                && book_entries(final(self).history_order_list) == insert_effect(
                book_entries(old(self).history_order_list),
                final(o).id@,
                *final(o),
            ),
    {
        o.status = Status::Rejected;
        self.cash = match self.cash.checked_add(&o.freeze_margin) {
            Some(c) => c,
            None => {
                return Err(ExchangeError::Overflow);
            },
        };
        self.record_history(o.duplicate());
        Ok(())
    }
}

/// No position has the symbol `sym`.
pub open spec fn no_position(p: Seq<(String, PositionEx)>, sym: Seq<char>) -> bool {
    forall|i: int| 0 <= i < p.len() ==> #[trigger] p[i].0@ != sym
}

/// `p` is the position a fill of `o` opens at `leverage` and `time` (its liquidation
/// price aside).
pub open spec fn opened_position(p: crate::order::Position, o: OrderEx, leverage: u32, time: u64) -> bool {
    &&& p.symbol@ == o.order.symbol@
    &&& p.leverage == leverage
    &&& p.side == o.order.side
    &&& p.open_avg_price == o.avg_price
    &&& p.quantity == o.order.quantity
    &&& p.margin == o.freeze_margin
    &&& p.profit == Dec::spec_zero()
    &&& p.open_time == time
}

/// `n` is the position `p` after adding the fill of `o`: the quantity and the margin
/// grow by the order's, the entry price becomes the quantity-weighted average.
pub open spec fn added_position(n: crate::order::Position, p: crate::order::Position, o: OrderEx) -> bool {
    &&& n.symbol == p.symbol && n.leverage == p.leverage && n.side == p.side
    &&& n.open_time == p.open_time && n.profit == p.profit
    &&& Some(n.quantity@) == decimal_checked_add(p.quantity@, o.order.quantity@)
    &&& Some(n.open_avg_price@) == added_avg_price(p.quantity@, p.open_avg_price@, o.order.quantity@, o.avg_price@)
    &&& Some(n.margin@) == decimal_checked_add(p.margin@, o.freeze_margin@)
}

/// `n` is the position `p` after the fill of the smaller opposite order `o`: the
/// closed quantity and its share of the margin (see `close_metrics`) leave it.
pub open spec fn reduced_position(n: crate::order::Position, p: crate::order::Position, o: OrderEx) -> bool {
    let close_q = o.order.quantity.spec_min(p.quantity);
    let metrics = close_metrics(p, o.avg_price@, o.kind, close_q@);
    &&& n.symbol == p.symbol && n.leverage == p.leverage && n.side == p.side
    &&& n.open_time == p.open_time && n.profit == p.profit && n.open_avg_price == p.open_avg_price
    &&& metrics is Some
    &&& Some(n.quantity@) == decimal_checked_sub(p.quantity@, close_q@)
    &&& Some(n.margin@) == decimal_checked_sub(p.margin@, metrics.unwrap().0)
}

/// `n` is the position that the excess quantity `q` of an opposite fill of `o`
/// opens at `leverage` and `time`: on the order's side, at its fill price, with the
/// initial margin of `q`.
pub open spec fn reversed_position(n: crate::order::Position, o: OrderEx, q: DecView, leverage: u32, time: u64) -> bool {
    let margin = crate::margin::initial_margin_spec(o.avg_price@, q, leverage);
    &&& n.symbol@ == o.order.symbol@ && n.leverage == leverage && n.side == o.order.side
    &&& n.open_avg_price == o.avg_price && n.quantity@ == q
    &&& margin is Some && n.margin@ == margin.unwrap()
    &&& n.profit == Dec::spec_zero() && n.open_time == time
}

/// The position of the order's symbol after the fill of `o` met the position
/// `before` there (`None`: no position), at the symbol's `leverage`, maintenance rate
/// and k-line `time`. No position: the fill opens one. A position of the order's
/// side: the fill adds to it. An opposite position: the fill closes
/// `min(quantity, position)` of it; an equal quantity closes it, a smaller one leaves
/// the rest, a larger one reverses it with the excess. Every position left carries
/// the liquidation price of its entry price, quantity and margin.
pub open spec fn position_after_fill(
    before: Option<PositionEx>,
    after: Option<PositionEx>,
    o: OrderEx,
    leverage: u32,
    maintenance: DecView,
    time: u64,
) -> bool {
    &&& after matches Some(pe) ==> Some(pe.position.liquidation_price@) == crate::margin::liquidation_price_spec(
        pe.position.leverage, maintenance, pe.position.side, pe.position.open_avg_price@, pe.position.quantity@,
        pe.position.margin@)
    &&& match before {
        None => after matches Some(pe) && opened_position(pe.position, o, leverage, time),
        Some(b) => if b.position.side == o.order.side {
            after matches Some(pe) && added_position(pe.position, b.position, o)
        } else {
            let remain = decimal_checked_sub(o.order.quantity@, b.position.quantity@);
            &&& remain is Some
            &&& if dec_value(remain.unwrap()) > 0 {
                after matches Some(pe) && reversed_position(pe.position, o, abs_view(remain.unwrap()), leverage, time)
            } else if dec_value(remain.unwrap()) == 0 {
                after is None
            } else {
                after matches Some(pe) && reduced_position(pe.position, b.position, o)
            }
        },
    }
}

/// The cash balance after the fill of `o` met the position `before`, from `cash`
/// (the balance the checks before the fill left). Opening or adding changes nothing
/// here (the margin was frozen before). Against an opposite position the released
/// margin and the realised profit of the closed quantity return, and so does the
/// order's frozen margin, less the initial margin of a reversed position.
pub open spec fn cash_after_fill(before: Option<PositionEx>, o: OrderEx, cash: DecView, leverage: u32) -> Option<DecView> {
    match before {
        None => Some(cash),
        Some(b) => if b.position.side == o.order.side {
            Some(cash)
        } else {
            let close_q = o.order.quantity.spec_min(b.position.quantity);
            let m = close_metrics(b.position, o.avg_price@, o.kind, close_q@).unwrap();
            let released = opt_add(Some(cash), decimal_checked_add(m.0, m.1));
            let remain = decimal_checked_sub(o.order.quantity@, b.position.quantity@).unwrap();
            if dec_value(remain) > 0 {
                opt_add(released, crate::margin::opt_sub(Some(o.freeze_margin@),
                    crate::margin::initial_margin_spec(o.avg_price@, abs_view(remain), leverage)))
            } else {
                opt_add(released, Some(o.freeze_margin@))
            }
        },
    }
}

/// No waiting order of `ex` is for the symbol `s`.
pub open spec fn no_orders_of(ex: LocalExchange, s: Seq<char>) -> bool {
    crate::book::orders_free_of(book_entries(ex.pending_order_list), s)
}

/// Every symbol but `sym` that has no waiting order in `a` has none in `b` either,
/// and the same position.
pub open spec fn others_untouched(a: LocalExchange, b: LocalExchange, sym: Seq<char>) -> bool {
    forall|s: Seq<char>| s != sym && #[trigger] no_orders_of(a, s) ==> no_orders_of(b, s) && position_of(b, s)
        == position_of(a, s)
}

/// No symbol without waiting orders in `a` has any in `b`.
pub open spec fn orders_not_spread(a: LocalExchange, b: LocalExchange) -> bool {
    forall|s: Seq<char>| #[trigger] no_orders_of(a, s) ==> no_orders_of(b, s)
}

/// Every symbol without waiting orders in `a` has none in `b` either, and the same
/// position.
pub open spec fn idle_symbols_kept(a: LocalExchange, b: LocalExchange) -> bool {
    forall|s: Seq<char>| #[trigger] no_orders_of(a, s) ==> no_orders_of(b, s) && position_of(b, s) == position_of(a, s)
}

pub proof fn lemma_idle_symbols_kept_trans(a: LocalExchange, b: LocalExchange, c: LocalExchange)
    requires
        idle_symbols_kept(a, b),
        idle_symbols_kept(b, c),
    ensures
        idle_symbols_kept(a, c),
{
    assert forall|s: Seq<char>| #[trigger] no_orders_of(a, s) implies no_orders_of(c, s) && position_of(c, s)
        == position_of(a, s) by {
        assert(no_orders_of(b, s));
    }
}

/// `b` is the position `a` (or no position, as `a`) with at most its unrealised
/// profit and its liquidation price changed.
pub open spec fn marks_changed(a: Option<PositionEx>, b: Option<PositionEx>) -> bool {
    match (a, b) {
        (None, None) => true,
        (Some(x), Some(y)) => y == (PositionEx {
            position: crate::order::Position {
                profit: y.position.profit,
                liquidation_price: y.position.liquidation_price,
                ..x.position
            },
            ..x
        }),
        _ => false,
    }
}

/// Every symbol without waiting orders in `a` has none in `b` either, and its
/// position (or its lack of one) changed at most in its marks: matching only touches
/// the symbols that have waiting orders.
pub open spec fn idle_symbols_marked(a: LocalExchange, b: LocalExchange) -> bool {
    forall|s: Seq<char>| #[trigger] no_orders_of(a, s) ==> no_orders_of(b, s) && marks_changed(position_of(a, s),
        position_of(b, s))
}

pub proof fn lemma_same_keys_index(p: Seq<(String, PositionEx)>, q: Seq<(String, PositionEx)>, sym: Seq<char>, i: int)
    requires
        p.len() == q.len(),
        forall|j: int| 0 <= j < p.len() ==> #[trigger] p[j].0 == q[j].0,
    ensures
        crate::exchange::position_index_from(p, sym, i) == crate::exchange::position_index_from(q, sym, i),
    decreases p.len() - i,
{
    if 0 <= i < p.len() {
        assert(p[i].0 == q[i].0);
        lemma_same_keys_index(p, q, sym, i + 1);
    }
}

/// Marking to market changes at most the marks of each symbol's position.
pub proof fn lemma_marks_only_positions(a: LocalExchange, b: LocalExchange, sym: Seq<char>)
    requires
        marks_only(a, b),
    ensures
        marks_changed(position_of(a, sym), position_of(b, sym)),
        no_orders_of(b, sym) == no_orders_of(a, sym),
{
    let p = a.position@;
    let q = b.position@;
    assert forall|j: int| 0 <= j < p.len() implies #[trigger] p[j].0 == q[j].0 by {
        assert(remarked(p[j], q[j]));
    }
    lemma_same_keys_index(p, q, sym, 0);
    crate::exchange::lemma_position_index_from(p, sym, 0);
    let k = position_index(p, sym);
    if k < p.len() {
        assert(remarked(p[k], q[k]));
    }
}

pub proof fn lemma_others_untouched_trans(a: LocalExchange, b: LocalExchange, c: LocalExchange, sym: Seq<char>)
    requires
        others_untouched(a, b, sym),
        others_untouched(b, c, sym),
    ensures
        others_untouched(a, c, sym),
{
    assert forall|s: Seq<char>| s != sym && #[trigger] no_orders_of(a, s) implies no_orders_of(c, s) && position_of(c, s)
        == position_of(a, s) by {
        assert(no_orders_of(b, s));
    }
}

/// The liquidation order stored under `id` waits in `s`.
pub open spec fn liq_order_waits(s: LocalExchange, id: Seq<char>) -> bool {
    pending_entry(s, id) matches Some(x) && x.kind == Kind::Liquidation
}

/// Opening a position with the fill of `o` (frozen margin `freeze`) goes through: its
/// liquidation price and fee exist, and an id is left for its liquidation order.
pub open spec fn open_ok(s: LocalExchange, o: OrderEx, freeze: DecView, rate: DecView) -> bool {
    let sym = o.order.symbol@;
    &&& crate::margin::liquidation_price_spec(s.leverage_spec(sym), s.metadata_of(sym).maintenance@, o.order.side,
        o.avg_price@, o.order.quantity@, freeze) is Some
    &&& s.id < u64::MAX
    &&& fee_spec(o.avg_price@, o.order.quantity@, rate) is Some
}

/// Adding the fill of `o` to the position `pe` goes through: the new quantity, entry
/// price, margin, liquidation price and fee exist, and the liquidation order waits.
pub open spec fn add_ok(s: LocalExchange, o: OrderEx, freeze: DecView, rate: DecView, pe: PositionEx) -> bool {
    let p = pe.position;
    let q = decimal_checked_add(p.quantity@, o.order.quantity@);
    let avg = added_avg_price(p.quantity@, p.open_avg_price@, o.order.quantity@, o.avg_price@);
    let m = decimal_checked_add(p.margin@, freeze);
    &&& q is Some && avg is Some && m is Some
    &&& crate::margin::liquidation_price_spec(p.leverage, s.metadata_of(o.order.symbol@).maintenance@, p.side,
        avg.unwrap(), q.unwrap(), m.unwrap()) is Some
    &&& fee_spec(o.avg_price@, o.order.quantity@, rate) is Some
    &&& liq_order_waits(s, pe.liquidation_order_id@)
}

/// Closing a position goes through: the frozen margin returns to `cash`, and the net
/// of the realised profit and the fees exists.
pub open spec fn close_ok(cash: DecView, freeze: DecView, profit: DecView, fee: DecView) -> bool {
    decimal_checked_add(cash, freeze) is Some && decimal_checked_sub(profit, fee) is Some
}

/// Keeping the reduced position `p` (quantity `q`, margin `m`) goes through: the frozen
/// margin returns to `cash`, the closed quantity `closed` and the net result exist,
/// the new liquidation price exists and the liquidation order waits.
pub open spec fn partial_ok(
    s: LocalExchange,
    sym: Seq<char>,
    cash: DecView,
    freeze: DecView,
    closed: Option<DecView>,
    profit: DecView,
    fee: DecView,
    p: crate::order::Position,
    q: DecView,
    m: DecView,
    liq_id: Seq<char>,
) -> bool {
    &&& decimal_checked_add(cash, freeze) is Some
    &&& closed is Some
    &&& decimal_checked_sub(profit, fee) is Some
    &&& crate::margin::liquidation_price_spec(p.leverage, s.metadata_of(sym).maintenance@, p.side, p.open_avg_price@,
        q, m) is Some
    &&& liq_order_waits(s, liq_id)
}

/// Reversing the position with the excess `remain` of the fill of `o` goes through:
/// the new position's margin, the cash after it, the net result, the liquidation
/// price and the fee exist, and the liquidation order waits.
pub open spec fn reverse_ok(
    s: LocalExchange,
    o: OrderEx,
    cash: DecView,
    freeze: DecView,
    remain: DecView,
    profit: DecView,
    fee: DecView,
    rate: DecView,
    liq_id: Seq<char>,
) -> bool {
    let sym = o.order.symbol@;
    let q = abs_view(remain);
    let lev = s.leverage_spec(sym);
    let margin = crate::margin::initial_margin_spec(o.avg_price@, q, lev);
    &&& margin is Some
    &&& opt_add(Some(cash), decimal_checked_sub(freeze, margin.unwrap())) is Some
    &&& decimal_checked_sub(profit, fee) is Some
    &&& crate::margin::liquidation_price_spec(lev, s.metadata_of(sym).maintenance@, o.order.side, o.avg_price@, q,
        margin.unwrap()) is Some
    &&& liq_order_waits(s, liq_id)
    &&& fee_spec(o.avg_price@, q, rate) is Some
}

/// Appending a fill to a log leaves the totals over its first `n` fills unchanged.
pub proof fn lemma_log_push(log: Seq<Record>, rec: Record, side: Side, n: int)
    requires
        n <= log.len(),
    ensures
        profit_total(log.push(rec), n) == profit_total(log, n),
        fee_total(log.push(rec), n) == fee_total(log, n),
        net_quantity(log.push(rec), n) == net_quantity(log, n),
        opposite_total(log.push(rec), side, n) == opposite_total(log, side, n),
        max_exposure(log.push(rec), n) == max_exposure(log, n),
    decreases n,
{
    if n > 0 {
        lemma_log_push(log, rec, side, n - 1);
        assert(log.push(rec)[n - 1] == log[n - 1]);
    }
}

/// Filling `o` against the opposite position `pe` goes through (see `close_against`):
/// with `cash` before the fill, every quantity, margin, cash balance, profit, fee
/// and total of the closing exists, and the closing, keeping or reversing that
/// follows goes through.
pub open spec fn against_ok(s: LocalExchange, cash: DecView, o: OrderEx, freeze: DecView, rate: DecView, pe: PositionEx) -> bool {
    let p = pe.position;
    let sym = o.order.symbol@;
    let close_q = o.order.quantity.spec_min(p.quantity);
    let remain = decimal_checked_sub(o.order.quantity@, p.quantity@);
    let metrics = close_metrics(p, o.avg_price@, o.kind, close_q@);
    let q1 = decimal_checked_sub(p.quantity@, close_q@);
    let m1 = decimal_checked_sub(p.margin@, metrics.unwrap().0);
    let c1 = opt_add(Some(cash), decimal_checked_add(metrics.unwrap().0, metrics.unwrap().1));
    let fee = fee_spec(o.avg_price@, close_q@, rate);
    let n = pe.log@.len() as int;
    let profit_sum = opt_add(profit_total(pe.log@, n), Some(metrics.unwrap().1));
    let fee_sum = opt_add(fee_total(pe.log@, n), fee);
    &&& remain is Some && metrics is Some && q1 is Some && m1 is Some && c1 is Some && fee is Some
    &&& profit_sum is Some && fee_sum is Some
    &&& max_exposure(pe.log@, n) is Some
    &&& opt_add(net_quantity(pe.log@, n), Some(signed_view(o.order.quantity@, o.order.side))) is Some
    &&& if dec_value(remain.unwrap()) > 0 {
        reverse_ok(s, o, c1.unwrap(), freeze, remain.unwrap(), profit_sum.unwrap(), fee_sum.unwrap(), rate,
            pe.liquidation_order_id@)
    } else if dec_value(remain.unwrap()) == 0 {
        close_ok(c1.unwrap(), freeze, profit_sum.unwrap(), fee_sum.unwrap())
    } else {
        partial_ok(s, sym, c1.unwrap(), freeze, opt_add(opposite_total(pe.log@, p.side, n), Some(o.order.quantity@)),
            profit_sum.unwrap(), fee_sum.unwrap(), p, q1.unwrap(), m1.unwrap(), pe.liquidation_order_id@)
    }
}

/// Filling `o` (frozen margin `freeze`, with `cash` after the checks before the
/// fill) goes through on `s`: opening, adding to or filling against the symbol's
/// position, as the case may be.
pub open spec fn fill_ok(s: LocalExchange, cash: DecView, o: OrderEx, freeze: DecView, rate: DecView) -> bool {
    match position_of(s, o.order.symbol@) {
        None => open_ok(s, o, freeze, rate),
        Some(pe) => if pe.position.side == o.order.side {
            add_ok(s, o, freeze, rate, pe)
        } else {
            against_ok(s, cash, o, freeze, rate, pe)
        },
    }
}

/// The order `o`, taken out of the book from under `taken`, is executed on `s` at the
/// fee rate `rate` without failing: the checks before the fill file it, or they let
/// it fill and the fill goes through (see `fill_ok`; the liquidation order of the
/// symbol's position is not the one taken).
pub open spec fn exec_ok(s: LocalExchange, taken: Seq<char>, o: OrderEx, rate: DecView) -> bool {
    let sym = o.order.symbol@;
    match pre_check(s, with_time(o, s.kline_spec(sym).time), rate) {
        FillCheck::Go(y, freeze, cash) => fill_ok(s, cash, y, freeze, rate) && (position_of(s, sym) matches Some(pe)
            ==> pe.liquidation_order_id@ != taken),
        FillCheck::Filed(..) => true,
        FillCheck::Overflow => false,
    }
}

/// `o` to be filled at `price` (a market order also takes it as its price).
pub open spec fn priced(o: OrderEx, price: Dec, market: bool) -> OrderEx {
    OrderEx {
        order: if market { Order { price, ..o.order } } else { o.order },
        avg_price: price,
        ..o
    }
}

/// A waiting limit or liquidation order that fills on its k-line is executed without
/// failing (with the taker fee for a liquidation, the maker fee otherwise).
pub open spec fn limit_match_ok(s: LocalExchange, id: Seq<char>) -> bool {
    let o = pending_entry(s, id).unwrap();
    let md = s.metadata_of(o.order.symbol@);
    let rate = if o.kind == Kind::Liquidation { md.taker_fee@ } else { md.maker_fee@ };
    exec_ok(s, id, priced(o, fill_price(o, s.kline_spec(o.order.symbol@)).unwrap(), false), rate)
}

/// A waiting market order fills on a k-line whose low is not above its high at a
/// price `market_fill_view` gives, and is executed at it with the taker fee without
/// failing.
pub open spec fn market_match_ok(s: LocalExchange, id: Seq<char>) -> bool {
    let o = pending_entry(s, id).unwrap();
    let k = s.kline_spec(o.order.symbol@);
    let md = s.metadata_of(o.order.symbol@);
    &&& market_fill_view(o, k, s.slippage@) is Some
    &&& k.low.val() <= k.high.val()
    &&& forall|d: Dec| d@ == market_fill_view(o, k, s.slippage@).unwrap() ==> #[trigger] exec_ok(s, id, priced(o, d,
        true), md.taker_fee@)
}

/// A waiting trigger order that fires places its order without failing: an id is
/// left, and the margin of a limit order it places exists and is either taken from
/// the cash balance or refused for want of cash (the trigger order is then rejected).
pub open spec fn trigger_match_ok(s: LocalExchange, id: Seq<char>) -> bool {
    let f = fired_order(pending_entry(s, id).unwrap().order);
    let m = crate::exchange::placed_margin(s, f);
    &&& s.id < u64::MAX
    &&& crate::exchange::needs_freeze(f) ==> m is Some && ((dec_value(m.unwrap()) != 0 && s.cash.val() < dec_value(
        m.unwrap())) || decimal_checked_sub(s.cash@, m.unwrap()) is Some)
}

/// Matching the order stored under `id` goes through (see `update_order`).
pub open spec fn match_ok(s: LocalExchange, id: Seq<char>) -> bool {
    match pending_entry(s, id) {
        None => true,
        Some(o) => if !acts_on(o, s.kline_spec(o.order.symbol@)) {
            true
        } else if o.kind == Kind::Trigger {
            trigger_match_ok(s, id)
        } else if o.kind == Kind::Limit || o.kind == Kind::Liquidation {
            limit_match_ok(s, id)
        } else {
            market_match_ok(s, id)
        },
    }
}

pub proof fn lemma_pre_check_pending(a: LocalExchange, b: LocalExchange, o: OrderEx, rate: DecView)
    requires
        b == (LocalExchange { pending_order_list: b.pending_order_list, ..a }),
    ensures
        pre_check(a, o, rate) == pre_check(b, o, rate),
{
}

pub proof fn lemma_exec_ok_after_take(a: LocalExchange, b: LocalExchange, taken: Seq<char>, o: OrderEx, rate: DecView)
    requires
        b == (LocalExchange { pending_order_list: b.pending_order_list, ..a }),
        unique_keys(book_entries(a.pending_order_list)),
        book_entries(b.pending_order_list) == remove_effect(book_entries(a.pending_order_list), taken),
        exec_ok(a, taken, o, rate),
    ensures
        exec_ok(b, taken, o, rate),
{
    let sym = o.order.symbol@;
    let x = with_time(o, a.kline_spec(sym).time);
    lemma_pre_check_pending(a, b, x, rate);
    if let Some(pe) = position_of(a, sym) {
        if pe.liquidation_order_id@ != taken {
            crate::book::lemma_lookup_remove(book_entries(a.pending_order_list), taken, pe.liquidation_order_id@);
        }
    }
}

/// Where no position has `sym`, the position of `sym` after pushing `x` for it is `x`.
pub proof fn lemma_position_of_pushed(p: Seq<(String, PositionEx)>, x: (String, PositionEx), sym: Seq<char>)
    requires
        no_position(p, sym),
        x.0@ == sym,
    ensures
        position_index(p.push(x), sym) == p.len(),
        position_index(p, sym) == p.len(),
{
    let q = p.push(x);
    crate::exchange::lemma_position_index_from(q, sym, 0);
    crate::exchange::lemma_position_index_from(p, sym, 0);
    if position_index(q, sym) < p.len() {
        assert(q[position_index(q, sym)] == p[position_index(q, sym)]);
    }
    assert(q[p.len() as int] == x);
}

/// `r` records a fill of order `id` on the position: at `o`'s fill price, with the
/// given quantity, profit and fee, at `time`.
pub open spec fn fill_record(r: Record, id: Seq<char>, o: OrderEx, quantity: Dec, profit: Dec, fee: DecView, time: u64) -> bool {
    &&& r.id@ == id
    &&& r.kind == o.kind
    &&& r.side == o.order.side
    &&& r.price == o.avg_price
    &&& r.quantity == quantity
    &&& r.profit == profit
    &&& r.fee@ == fee
    &&& r.time == time
}

impl LocalExchange {
    /// Opens a position with the filled order: its frozen margin becomes the
    /// position's margin, and a liquidation order for the whole position is placed at
    /// the liquidation price.
    fn handle_open_position(&mut self, id: &str, o: &OrderEx, fee_rate: Dec) -> (r: Result<(), ExchangeError>)
        requires
            old(self).wf(),
            old(self).has_symbol(o.order.symbol@),
            no_position(old(self).position@, o.order.symbol@),
        ensures
            final(self).wf(),
            engine_frame(*old(self), *final(self)),
            user_orders_kept(*old(self), *final(self)),
            unfiled_kept(*old(self), *final(self)),
            final(self).history_order_list == old(self).history_order_list,
            final(self).history_position_list == old(self).history_position_list,
            final(self).cash == old(self).cash,
            r matches Err(e) ==> e == ExchangeError::Overflow || e == ExchangeError::CashShortage,
            r is Ok ==> ({
                let time = old(self).kline_spec(o.order.symbol@).time;
                let lev = old(self).leverage_spec(o.order.symbol@);
                let md = old(self).metadata_of(o.order.symbol@);
                let pe = final(self).position@.last().1;
                &&& final(self).position@.len() == old(self).position@.len() + 1
                &&& final(self).position@.drop_last() == old(self).position@
                &&& opened_position(pe.position, *o, lev, time)
                &&& Some(pe.position.liquidation_price@) == crate::margin::liquidation_price_spec(lev, md.maintenance@,
                    o.order.side, o.avg_price@, o.order.quantity@, o.freeze_margin@)
                &&& pe.log@.len() == 1
                &&& fill_record(pe.log@[0], id@, *o, o.order.quantity, Dec::spec_zero(),
                    fee_spec(o.avg_price@, o.order.quantity@, fee_rate@).unwrap(), time)
                &&& fee_spec(o.avg_price@, o.order.quantity@, fee_rate@) is Some
            }),
            r is Ok ==> others_untouched(*old(self), *final(self), o.order.symbol@),
            open_ok(*old(self), *o, o.freeze_margin@, fee_rate@) ==> r is Ok,
    {
        let ghost s0 = *self;
        let symbol = o.order.symbol.clone();
        let leverage = self.leverage_of(symbol.as_str());
        let maintenance = match self.get_metadata(symbol.as_str()) {
            Ok(md) => md.maintenance,
            Err(_) => {
                return Err(ExchangeError::Overflow);
            },
        };
        let kline_time = self.kline(symbol.as_str()).time;
        let liquidation_price = match crate::margin::checked_calc_liquidation_price(
            leverage,
            maintenance,
            o.order.side,
            o.avg_price,
            o.order.quantity,
            o.freeze_margin,
        ) {
            Some(p) => p,
            None => {
                return Err(ExchangeError::Overflow);
            },
        };
        let liquidation_order_id = self.place_order_inner(
            Order {
                symbol: symbol.clone(),
                side: o.order.side.neg(),
                trigger_price: Dec::zero(),
                price: liquidation_price,
                quantity: Dec::max_value(),
                reduce_only: true,
            },
            Kind::Liquidation,
        )?;
        let fee = calc_fee(o.avg_price, o.order.quantity, fee_rate)?;
        let record = Record {
            id: id.to_owned(),
            kind: o.kind,
            side: o.order.side,
            price: o.avg_price,
            quantity: o.order.quantity,
            profit: Dec::zero(),
            fee,
            time: kline_time,
        };
        let position = crate::order::Position {
            symbol: o.order.symbol.clone(),
            leverage,
            side: o.order.side,
            open_avg_price: o.avg_price,
            quantity: o.order.quantity,
            margin: o.freeze_margin,
            liquidation_price,
            profit: Dec::zero(),
            open_time: kline_time,
        };
        let ghost p0 = self.position@;
        let ghost mid = *self;
        let entry = (symbol, PositionEx { position, liquidation_order_id, log: vec![record] });
        proof {
            lemma_unique_positions_push(p0, entry);
        }
        self.position.push(entry);
        proof {
            let sym = o.order.symbol@;
            let e0 = book_entries(s0.pending_order_list);
            assert forall|s: Seq<char>| s != sym && #[trigger] no_orders_of(s0, s) implies no_orders_of(*self, s)
                && position_of(*self, s) == position_of(s0, s) by {
                crate::book::lemma_free_insert(e0, liquidation_order_id@, crate::exchange::stored(mid, liquidation_order_id), s);
                lemma_push_keeps_others(p0, entry, sym, s);
            }
        }
        Ok(())
    }

    /// Adds the filled order to the position of its side (taken out of the list):
    /// the quantity grows, the entry price becomes the weighted average, the frozen
    /// margin joins the margin, and the liquidation order moves to the new
    /// liquidation price.
    fn handle_add_position(&mut self, id: &str, o: &OrderEx, fee_rate: Dec, pos: PositionEx) -> (r: Result<(), ExchangeError>)
        requires
            old(self).wf(),
            old(self).has_symbol(o.order.symbol@),
            no_position(old(self).position@, o.order.symbol@),
            pos.position.symbol@ == o.order.symbol@,
        ensures
            final(self).wf(),
            engine_frame(*old(self), *final(self)),
            user_orders_kept(*old(self), *final(self)),
            unfiled_kept(*old(self), *final(self)),
            final(self).history_order_list == old(self).history_order_list,
            final(self).history_position_list == old(self).history_position_list,
            final(self).cash == old(self).cash,
            r matches Err(e) ==> e == ExchangeError::Overflow || e == ExchangeError::MissingLiquidationOrder,
            r is Ok ==> ({
                let time = old(self).kline_spec(o.order.symbol@).time;
                let md = old(self).metadata_of(o.order.symbol@);
                let old_p = pos.position;
                let pe = final(self).position@.last().1;
                let p = pe.position;
                &&& final(self).position@.len() == old(self).position@.len() + 1
                &&& final(self).position@.drop_last() == old(self).position@
                &&& p.symbol == old_p.symbol && p.leverage == old_p.leverage && p.side == old_p.side
                &&& p.open_time == old_p.open_time && p.profit == old_p.profit
                &&& Some(p.quantity@) == decimal_checked_add(old_p.quantity@, o.order.quantity@)
                &&& Some(p.open_avg_price@) == added_avg_price(old_p.quantity@, old_p.open_avg_price@, o.order.quantity@, o.avg_price@)
                &&& Some(p.margin@) == decimal_checked_add(old_p.margin@, o.freeze_margin@)
                &&& Some(p.liquidation_price@) == crate::margin::liquidation_price_spec(p.leverage, md.maintenance@,
                    p.side, p.open_avg_price@, p.quantity@, p.margin@)
                &&& pe.liquidation_order_id == pos.liquidation_order_id
                &&& pe.log@.len() == pos.log@.len() + 1
                &&& pe.log@.drop_last() == pos.log@
                &&& fee_spec(o.avg_price@, o.order.quantity@, fee_rate@) is Some
                &&& fill_record(pe.log@.last(), id@, *o, o.order.quantity, Dec::spec_zero(),
                    fee_spec(o.avg_price@, o.order.quantity@, fee_rate@).unwrap(), time)
                &&& key_position(book_entries(old(self).pending_order_list), pos.liquidation_order_id@) >= 0
            }),
            r is Ok ==> others_untouched(*old(self), *final(self), o.order.symbol@),
            add_ok(*old(self), *o, o.freeze_margin@, fee_rate@, pos) ==> r is Ok,
    {
        let mut pos = pos;
        let maintenance = match self.get_metadata(o.order.symbol.as_str()) {
            Ok(md) => md.maintenance,
            Err(_) => {
                return Err(ExchangeError::Overflow);
            },
        };
        let kline_time = self.kline(o.order.symbol.as_str()).time;
        let old_quantity = pos.position.quantity;
        let new_quantity = match old_quantity.checked_add(&o.order.quantity) {
            Some(q) => q,
            None => {
                return Err(ExchangeError::Overflow);
            },
        };
        let a = old_quantity.checked_mul(&pos.position.open_avg_price);
        let b = o.order.quantity.checked_mul(&o.avg_price);
        let sum = match (a, b) {
            (Some(a), Some(b)) => a.checked_add(&b),
            _ => None,
        };
        let new_avg_price = match sum {
            Some(s) => match s.checked_div(&new_quantity) {
                Some(p) => p,
                None => {
                    return Err(ExchangeError::Overflow);
                },
            },
            None => {
                return Err(ExchangeError::Overflow);
            },
        };
        let new_margin = match pos.position.margin.checked_add(&o.freeze_margin) {
            Some(m) => m,
            None => {
                return Err(ExchangeError::Overflow);
            },
        };
        pos.position.quantity = new_quantity;
        pos.position.open_avg_price = new_avg_price;
        pos.position.margin = new_margin;
        let liquidation_price = match crate::margin::checked_calc_liquidation_price(
            pos.position.leverage,
            maintenance,
            pos.position.side,
            new_avg_price,
            new_quantity,
            new_margin,
        ) {
            Some(p) => p,
            None => {
                return Err(ExchangeError::Overflow);
            },
        };
        pos.position.liquidation_price = liquidation_price;
        let fee = calc_fee(o.avg_price, o.order.quantity, fee_rate)?;
        pos.log.push(
            Record {
                id: id.to_owned(),
                kind: o.kind,
                side: o.order.side,
                price: o.avg_price,
                quantity: o.order.quantity,
                profit: Dec::zero(),
                fee,
                time: kline_time,
            },
        );
        if !self.reprice_pending(pos.liquidation_order_id.as_str(), None, liquidation_price) {
            return Err(ExchangeError::MissingLiquidationOrder);
        }
        let ghost p0 = self.position@;
        let entry = (o.order.symbol.clone(), pos);
        proof {
            lemma_unique_positions_push(p0, entry);
        }
        self.position.push(entry);
        proof {
            assert forall|s: Seq<char>| s != o.order.symbol@ && #[trigger] no_orders_of(*old(self), s) implies no_orders_of(
                *self,
                s,
            ) && position_of(*self, s) == position_of(*old(self), s) by {
                lemma_push_keeps_others(p0, entry, o.order.symbol@, s);
            }
        }
        Ok(())
    }
}

/// `h` reports the closing of `pos` (with fills `log`) at `avg`: the given maximum and
/// closed quantities, realised profit and fees, and closing time.
pub open spec fn closed_entry(
    h: HistoryPosition,
    pos: crate::order::Position,
    log: Seq<Record>,
    avg: Dec,
    max_q: Dec,
    close_q: Dec,
    profit: Dec,
    fee: Dec,
    time: u64,
) -> bool {
    &&& h.leverage == pos.leverage
    &&& h.side == pos.side
    &&& h.open_avg_price == pos.open_avg_price
    &&& h.close_avg_price == avg
    &&& h.max_quantity == max_q
    &&& h.close_quantity == close_q
    &&& Some(h.total_profit@) == decimal_checked_sub(profit@, fee@)
    &&& h.profit == profit
    &&& h.fee == fee
    &&& h.close_time == time
    &&& h.log@ == log
}

/// The closed-position list after reporting a closing: the last report is updated in
/// place when `merge` holds (keeping its symbol and opening time), else a report of
/// `pos` is appended; either way the last report is as `closed_entry` says.
pub open spec fn history_after(
    old: Seq<HistoryPosition>,
    new: Seq<HistoryPosition>,
    merge: bool,
    pos: crate::order::Position,
    log: Seq<Record>,
    avg: Dec,
    max_q: Dec,
    close_q: Dec,
    profit: Dec,
    fee: Dec,
    time: u64,
) -> bool {
    &&& new.len() > 0
    &&& if merge {
        &&& old.len() > 0
        &&& new.len() == old.len()
        &&& new.drop_last() == old.drop_last()
        &&& new.last().symbol == old.last().symbol
        &&& new.last().open_time == old.last().open_time
    } else {
        &&& new.len() == old.len() + 1
        &&& new.drop_last() == old
        &&& new.last().symbol == pos.symbol
        &&& new.last().open_time == pos.open_time
    }
    &&& closed_entry(new.last(), pos, log, avg, max_q, close_q, profit, fee, time)
}

impl LocalExchange {
    /// Reports a closing in the closed-position list: updates the last report in place
    /// when `merge` holds, else appends a new one.
    fn report_closing(
        &mut self,
        merge: bool,
        pos: &crate::order::Position,
        log: Vec<Record>,
        avg: Dec,
        max_q: Dec,
        close_q: Dec,
        profit: Dec,
        fee: Dec,
        time: u64,
    ) -> (r: Result<(), ExchangeError>)
        requires
            merge ==> old(self).history_position_list@.len() > 0,
        ensures
            *final(self) == (LocalExchange { history_position_list: final(self).history_position_list, ..*old(self) }),
            r matches Err(e) ==> e == ExchangeError::Overflow && *final(self) == *old(self),
            r is Ok <==> decimal_checked_sub(profit@, fee@) is Some,
            r is Ok ==> history_after(old(self).history_position_list@, final(self).history_position_list@, merge,
                *pos, log@, avg, max_q, close_q, profit, fee, time),
    {
        let total_profit = match profit.checked_sub(&fee) {
            Some(t) => t,
            None => {
                return Err(ExchangeError::Overflow);
            },
        };
        if merge {
            let mut last = self.history_position_list.pop().unwrap();
            last.leverage = pos.leverage;
            last.side = pos.side;
            last.open_avg_price = pos.open_avg_price;
            last.close_avg_price = avg;
            last.max_quantity = max_q;
            last.close_quantity = close_q;
            last.total_profit = total_profit;
            last.profit = profit;
            last.fee = fee;
            last.close_time = time;
            last.log = log;
            let ghost h0 = old(self).history_position_list@;
            self.history_position_list.push(last);
            proof {
                assert(self.history_position_list@.drop_last() =~= h0.drop_last());
            }
        } else {
            let ghost h0 = old(self).history_position_list@;
            self.history_position_list.push(
                HistoryPosition {
                    symbol: pos.symbol.clone(),
                    leverage: pos.leverage,
                    side: pos.side,
                    open_avg_price: pos.open_avg_price,
                    close_avg_price: avg,
                    max_quantity: max_q,
                    close_quantity: close_q,
                    total_profit,
                    profit,
                    fee,
                    open_time: pos.open_time,
                    close_time: time,
                    log,
                },
            );
            proof {
                assert(self.history_position_list@.drop_last() =~= h0);
            }
        }
        Ok(())
    }

    /// Closes the position (already taken out of the list) completely: the order's
    /// frozen margin returns to the cash balance, the closing is reported, and the
    /// position's liquidation order is withdrawn.
    fn handle_close_position(&mut self, pos: PositionEx, o: &OrderEx, max_q: Dec, profit_sum: Dec, fee_sum: Dec) -> (r: Result<(), ExchangeError>)
        requires
            old(self).wf(),
            old(self).has_symbol(o.order.symbol@),
            no_position(old(self).position@, o.order.symbol@),
            pos.position.symbol@ == o.order.symbol@,
        ensures
            final(self).wf(),
            engine_frame(*old(self), *final(self)),
            user_orders_kept(*old(self), *final(self)),
            unfiled_kept(*old(self), *final(self)),
            final(self).history_order_list == old(self).history_order_list,
            final(self).position == old(self).position,
            r matches Err(e) ==> e == ExchangeError::Overflow,
            r is Ok ==> ({
                let hp = old(self).history_position_list@;
                let merge = hp.len() > 0 && hp.last().close_quantity.val() != max_q.val();
                &&& Some(final(self).cash@) == decimal_checked_add(old(self).cash@, o.freeze_margin@)
                &&& history_after(hp, final(self).history_position_list@, merge, pos.position, pos.log@,
                    o.avg_price, max_q, max_q, profit_sum, fee_sum, old(self).kline_spec(o.order.symbol@).time)
                &&& book_entries(final(self).pending_order_list) == (if pending_entry(*old(self), pos.liquidation_order_id@) matches Some(x)
                    && x.kind == Kind::Liquidation {
                    remove_effect(book_entries(old(self).pending_order_list), pos.liquidation_order_id@)
                } else {
                    book_entries(old(self).pending_order_list)
                })
            }),
            r is Ok ==> others_untouched(*old(self), *final(self), o.order.symbol@),
            close_ok(old(self).cash@, o.freeze_margin@, profit_sum@, fee_sum@) ==> r is Ok,
    {
        self.cash = match self.cash.checked_add(&o.freeze_margin) {
            Some(c) => c,
            None => {
                return Err(ExchangeError::Overflow);
            },
        };
        let kline_time = self.kline(o.order.symbol.as_str()).time;
        let n = self.history_position_list.len();
        let merge = n > 0 && !self.history_position_list[n - 1].close_quantity.eq_val(&max_q);
        let liquidation_order_id = pos.liquidation_order_id;
        self.report_closing(merge, &pos.position, pos.log, o.avg_price, max_q, max_q, profit_sum, fee_sum, kline_time)?;
        let ghost st = *self;
        self.take_liquidation_order(liquidation_order_id.as_str());
        let ghost sa = *self;
        proof {
            crate::exchange::lemma_position_index_from(self.position@, pos.position.symbol@, 0);
        }
        match self.find_position(pos.position.symbol.as_str()) {
            Some(k) => {
                let ghost p0 = self.position@;
                proof {
                    lemma_unique_positions_swap(p0, k as int);
                }
                self.position.swap_remove(k);
                proof {
                    assert forall|i: int| 0 <= i < self.position@.len() implies #[trigger] self.position@[i].0@
                        == self.position@[i].1.position.symbol@ by {
                        let ii = if i == k { p0.len() - 1 } else { i };
                        assert(self.position@[i] == p0[ii]);
                    }
                }
            },
            None => {},
        }
        proof {
            assert forall|s: Seq<char>| s != o.order.symbol@ && #[trigger] no_orders_of(*old(self), s) implies no_orders_of(
                *self,
                s,
            ) && position_of(*self, s) == position_of(*old(self), s) by {
                assert(no_orders_of(st, s));
                assert(no_orders_of(sa, s));
            }
        }
        Ok(())
    }
}

impl LocalExchange {
    /// Keeps the reduced position (already taken out of the list): the order's frozen
    /// margin returns to the cash balance, the closing so far is reported, and the
    /// position and its liquidation order move to the new liquidation price.
    fn handle_partial_close_position(&mut self, pos: PositionEx, o: &OrderEx, max_q: Dec, profit_sum: Dec, fee_sum: Dec) -> (r: Result<(), ExchangeError>)
        requires
            old(self).wf(),
            old(self).has_symbol(o.order.symbol@),
            no_position(old(self).position@, o.order.symbol@),
            pos.position.symbol@ == o.order.symbol@,
        ensures
            final(self).wf(),
            engine_frame(*old(self), *final(self)),
            user_orders_kept(*old(self), *final(self)),
            unfiled_kept(*old(self), *final(self)),
            final(self).history_order_list == old(self).history_order_list,
            r matches Err(e) ==> e == ExchangeError::Overflow || e == ExchangeError::MissingLiquidationOrder,
            r is Ok ==> ({
                let hp = old(self).history_position_list@;
                let merge = hp.len() > 0 && hp.last().close_quantity.val() != hp.last().max_quantity.val();
                let md = old(self).metadata_of(o.order.symbol@);
                let closed = opposite_total(pos.log@, pos.position.side, pos.log@.len() as int).unwrap();
                let p = final(self).position@.last().1.position;
                &&& Some(final(self).cash@) == decimal_checked_add(old(self).cash@, o.freeze_margin@)
                &&& opposite_total(pos.log@, pos.position.side, pos.log@.len() as int) is Some
                &&& history_after(hp, final(self).history_position_list@, merge, pos.position, pos.log@,
                    o.avg_price, max_q, final(self).history_position_list@.last().close_quantity, profit_sum, fee_sum,
                    old(self).kline_spec(o.order.symbol@).time)
                &&& final(self).history_position_list@.last().close_quantity@ == (if dec_value(closed) > 0 { closed } else { (0int, 0nat) })
                &&& final(self).position@.len() == old(self).position@.len() + 1
                &&& final(self).position@.drop_last() == old(self).position@
                &&& p == (crate::order::Position { liquidation_price: p.liquidation_price, ..pos.position })
                &&& Some(p.liquidation_price@) == crate::margin::liquidation_price_spec(p.leverage, md.maintenance@,
                    p.side, p.open_avg_price@, p.quantity@, p.margin@)
                &&& final(self).position@.last().1.log@ == pos.log@
                &&& final(self).position@.last().1.liquidation_order_id == pos.liquidation_order_id
            }),
            r is Ok ==> others_untouched(*old(self), *final(self), o.order.symbol@),
            partial_ok(*old(self), o.order.symbol@, old(self).cash@, o.freeze_margin@, opposite_total(pos.log@,
                pos.position.side, pos.log@.len() as int), profit_sum@, fee_sum@, pos.position, pos.position.quantity@,
                pos.position.margin@, pos.liquidation_order_id@) ==> r is Ok,
    {
        let mut pos = pos;
        self.cash = match self.cash.checked_add(&o.freeze_margin) {
            Some(c) => c,
            None => {
                return Err(ExchangeError::Overflow);
            },
        };
        let kline_time = self.kline(o.order.symbol.as_str()).time;
        let closed = pos.closed_quantity()?;
        let n = self.history_position_list.len();
        let merge = n > 0 && !self.history_position_list[n - 1].close_quantity.eq_val(&self.history_position_list[n - 1].max_quantity);
        let log = crate::order::duplicate_records(&pos.log);
        self.report_closing(merge, &pos.position, log, o.avg_price, max_q, closed, profit_sum, fee_sum, kline_time)?;
        let maintenance = match self.get_metadata(o.order.symbol.as_str()) {
            Ok(md) => md.maintenance,
            Err(_) => {
                return Err(ExchangeError::Overflow);
            },
        };
        let liquidation_price = match crate::margin::checked_calc_liquidation_price(
            pos.position.leverage,
            maintenance,
            pos.position.side,
            pos.position.open_avg_price,
            pos.position.quantity,
            pos.position.margin,
        ) {
            Some(p) => p,
            None => {
                return Err(ExchangeError::Overflow);
            },
        };
        pos.position.liquidation_price = liquidation_price;
        let ghost sr = *self;
        if !self.reprice_pending(pos.liquidation_order_id.as_str(), None, liquidation_price) {
            return Err(ExchangeError::MissingLiquidationOrder);
        }
        let ghost p0 = self.position@;
        let entry = (pos.position.symbol.clone(), pos);
        proof {
            lemma_unique_positions_push(p0, entry);
        }
        self.position.push(entry);
        proof {
            assert forall|s: Seq<char>| s != o.order.symbol@ && #[trigger] no_orders_of(*old(self), s) implies no_orders_of(
                *self,
                s,
            ) && position_of(*self, s) == position_of(*old(self), s) by {
                assert(no_orders_of(sr, s));
                lemma_push_keeps_others(p0, entry, o.order.symbol@, s);
            }
        }
        Ok(())
    }

    /// Closes the position (already taken out of the list) and opens one on the
    /// order's side with the rest of its quantity: the closing is reported, the order's
    /// frozen margin less the new position's initial margin returns to the cash
    /// balance, and the liquidation order turns to the new side and price.
    fn handle_reverse_position(
        &mut self,
        id: &str,
        pos: PositionEx,
        o: &OrderEx,
        fee_rate: Dec,
        remain: Dec,
        max_q: Dec,
        profit: Dec,
        fee: Dec,
    ) -> (r: Result<(), ExchangeError>)
        requires
            old(self).wf(),
            old(self).has_symbol(o.order.symbol@),
            no_position(old(self).position@, o.order.symbol@),
        ensures
            final(self).wf(),
            engine_frame(*old(self), *final(self)),
            user_orders_kept(*old(self), *final(self)),
            unfiled_kept(*old(self), *final(self)),
            final(self).history_order_list == old(self).history_order_list,
            r matches Err(e) ==> e == ExchangeError::Overflow || e == ExchangeError::MissingLiquidationOrder,
            r is Ok ==> ({
                let time = old(self).kline_spec(o.order.symbol@).time;
                let lev = old(self).leverage_spec(o.order.symbol@);
                let md = old(self).metadata_of(o.order.symbol@);
                let q = abs_view(remain@);
                let margin = crate::margin::initial_margin_spec(o.avg_price@, q, lev);
                let pe = final(self).position@.last().1;
                let p = pe.position;
                &&& margin is Some
                &&& Some(final(self).cash@) == opt_add(Some(old(self).cash@), crate::margin::opt_sub(Some(o.freeze_margin@), margin))
                &&& history_after(old(self).history_position_list@, final(self).history_position_list@, false, pos.position,
                    pos.log@, o.avg_price, max_q, max_q, profit, fee, time)
                &&& final(self).position@.len() == old(self).position@.len() + 1
                &&& final(self).position@.drop_last() == old(self).position@
                &&& p.symbol@ == o.order.symbol@ && p.leverage == lev && p.side == o.order.side
                &&& p.open_avg_price == o.avg_price && p.quantity@ == q && p.margin@ == margin.unwrap()
                &&& p.profit == Dec::spec_zero() && p.open_time == time
                &&& Some(p.liquidation_price@) == crate::margin::liquidation_price_spec(lev, md.maintenance@,
                    o.order.side, o.avg_price@, q, margin.unwrap())
                &&& pe.liquidation_order_id == pos.liquidation_order_id
                &&& pe.log@.len() == 1
                &&& fill_record(pe.log@[0], id@, *o, p.quantity, Dec::spec_zero(),
                    fee_spec(o.avg_price@, q, fee_rate@).unwrap(), time)
                &&& fee_spec(o.avg_price@, q, fee_rate@) is Some
                &&& {
                    let e = book_entries(old(self).pending_order_list);
                    let k = key_position(e, pos.liquidation_order_id@);
                    &&& k >= 0
                    &&& book_entries(final(self).pending_order_list) == e.update(k, (pos.liquidation_order_id@,
                        repriced(e[k].1, Some(crate::exchange::opposite(o.order.side)), p.liquidation_price)))
                }
            }),
            r is Ok ==> others_untouched(*old(self), *final(self), o.order.symbol@),
            reverse_ok(*old(self), *o, old(self).cash@, o.freeze_margin@, remain@, profit@, fee@, fee_rate@,
                pos.liquidation_order_id@) ==> r is Ok,
    {
        let reverse_quantity = remain.abs();
        let symbol = o.order.symbol.clone();
        let leverage = self.leverage_of(symbol.as_str());
        let reverse_margin = match crate::margin::checked_calc_initial_margin(o.avg_price, reverse_quantity, leverage) {
            Some(m) => m,
            None => {
                return Err(ExchangeError::Overflow);
            },
        };
        let kline_time = self.kline(symbol.as_str()).time;
        let maintenance = match self.get_metadata(symbol.as_str()) {
            Ok(md) => md.maintenance,
            Err(_) => {
                return Err(ExchangeError::Overflow);
            },
        };
        let delta = match o.freeze_margin.checked_sub(&reverse_margin) {
            Some(d) => d,
            None => {
                return Err(ExchangeError::Overflow);
            },
        };
        self.cash = match self.cash.checked_add(&delta) {
            Some(c) => c,
            None => {
                return Err(ExchangeError::Overflow);
            },
        };
        let liquidation_order_id = pos.liquidation_order_id;
        self.report_closing(false, &pos.position, pos.log, o.avg_price, max_q, max_q, profit, fee, kline_time)?;
        let liquidation_price = match crate::margin::checked_calc_liquidation_price(
            leverage,
            maintenance,
            o.order.side,
            o.avg_price,
            reverse_quantity,
            reverse_margin,
        ) {
            Some(p) => p,
            None => {
                return Err(ExchangeError::Overflow);
            },
        };
        let ghost sr = *self;
        if !self.reprice_pending(liquidation_order_id.as_str(), Some(o.order.side.neg()), liquidation_price) {
            return Err(ExchangeError::MissingLiquidationOrder);
        }
        let fee = calc_fee(o.avg_price, reverse_quantity, fee_rate)?;
        let record = Record {
            id: id.to_owned(),
            kind: o.kind,
            side: o.order.side,
            price: o.avg_price,
            quantity: reverse_quantity,
            profit: Dec::zero(),
            fee,
            time: kline_time,
        };
        let position = crate::order::Position {
            symbol: symbol.clone(),
            leverage,
            side: o.order.side,
            open_avg_price: o.avg_price,
            quantity: reverse_quantity,
            margin: reverse_margin,
            liquidation_price,
            profit: Dec::zero(),
            open_time: kline_time,
        };
        let ghost p0 = self.position@;
        let entry = (symbol, PositionEx { position, liquidation_order_id, log: vec![record] });
        proof {
            lemma_unique_positions_push(p0, entry);
        }
        self.position.push(entry);
        proof {
            assert forall|s: Seq<char>| s != o.order.symbol@ && #[trigger] no_orders_of(*old(self), s) implies no_orders_of(
                *self,
                s,
            ) && position_of(*self, s) == position_of(*old(self), s) by {
                assert(no_orders_of(sr, s));
                lemma_push_keeps_others(p0, entry, o.order.symbol@, s);
            }
        }
        Ok(())
    }
}

impl LocalExchange {
    /// Fills an order (already taken out of the book) at its `avg_price` with the
    /// given fee rate, after the checks of `pre_execution_check`. Against no position
    /// it opens one; against a position of its side it adds to it; against the
    /// opposite side it closes `min(quantity, position)` of it, releasing margin in
    /// proportion and realising the price difference, and then closes the position,
    /// keeps the rest of it, or reverses it with the order's excess quantity. The
    /// order is filed in the history, filled (or cancelled or rejected by the checks):
    /// `pre_check` decides which, `position_after_fill` and `cash_after_fill` say what
    /// a fill does to the position and the cash balance.
    fn execute_order(&mut self, id: &str, o: OrderEx, fee_rate: Dec) -> (r: Result<(), ExchangeError>)
        requires
            old(self).wf(),
            old(self).has_symbol(o.order.symbol@),
            unfiled(*old(self), o.id@),
        ensures
            final(self).wf(),
            engine_frame(*old(self), *final(self)),
            user_orders_kept(*old(self), *final(self)),
            r is Ok ==> settled(*final(self), o.id@),
            r is Ok ==> filed_fill(*final(self), o.id@, o.avg_price@),
            r is Ok ==> ({
                let sym = o.order.symbol@;
                let t = old(self).kline_spec(sym).time;
                let lev = old(self).leverage_spec(sym);
                let before = position_of(*old(self), sym);
                let x = crate::book::lookup(book_entries(final(self).history_order_list), o.id@).unwrap();
                match pre_check(*old(self), with_time(o, t), fee_rate@) {
                    FillCheck::Go(y, freeze, cash) => {
                        &&& same_but_freeze(x, filled_order(y))
                        &&& x.freeze_margin@ == freeze
                        &&& position_after_fill(before, position_of(*final(self), sym), x, lev,
                            old(self).metadata_of(sym).maintenance@, t)
                        &&& Some(final(self).cash@) == cash_after_fill(before, x, cash, lev)
                    },
                    FillCheck::Filed(y, freeze, cash) => {
                        &&& same_but_freeze(x, y)
                        &&& x.freeze_margin@ == freeze
                        &&& final(self).cash@ == cash
                        &&& final(self).position == old(self).position
                    },
                    FillCheck::Overflow => false,
                }
            }),
            r is Ok ==> forall|other: Seq<char>| other != o.order.symbol@ ==> #[trigger] position_of(*final(self), other)
                == position_of(*old(self), other),
            r is Ok ==> others_untouched(*old(self), *final(self), o.order.symbol@),
            pre_check(*old(self), with_time(o, old(self).kline_spec(o.order.symbol@).time), fee_rate@) is Filed ==> r is Ok,
            match pre_check(*old(self), with_time(o, old(self).kline_spec(o.order.symbol@).time), fee_rate@) {
                FillCheck::Go(y, freeze, cash) => fill_ok(*old(self), cash, y, freeze, fee_rate@) ==> r is Ok,
                _ => true,
            },
            pre_check(*old(self), with_time(o, old(self).kline_spec(o.order.symbol@).time), fee_rate@) is Overflow
                ==> r == Err::<(), ExchangeError>(ExchangeError::Overflow),
            r matches Err(e) ==> e == ExchangeError::Overflow || e == ExchangeError::MissingLiquidationOrder
                || e == ExchangeError::CashShortage,
    {
        let ghost s00 = *self;
        let mut o = o;
        let kline_time = self.kline(o.order.symbol.as_str()).time;
        o.update_time = kline_time;
        let ghost s0 = *self;
        let go = self.pre_execution_check(&mut o, fee_rate)?;
        if !go {
            proof {
                lemma_insert_lookup(book_entries(s0.history_order_list), o.id@, o);
                crate::book::lemma_lookup_insert(book_entries(s0.history_order_list), o.id@, o, o.id@);
            }
            return Ok(());
        }
        let ghost s1 = *self;
        match self.find_position(o.order.symbol.as_str()) {
            Some(k) => {
                let ghost p0 = self.position@;
                proof {
                    lemma_unique_positions_swap(p0, k as int);
                    crate::exchange::lemma_position_index_from(p0, o.order.symbol@, 0);
                    assert(p0[k as int].0@ == p0[k as int].1.position.symbol@);
                }
                let same_side = self.position[k].1.position.side == o.order.side;
                let (_, pos) = self.position.swap_remove(k);
                proof {
                    assert forall|i: int| 0 <= i < self.position@.len() implies #[trigger] self.position@[i].0@
                        == self.position@[i].1.position.symbol@ by {
                        let ii = if i == k { p0.len() - 1 } else { i };
                        assert(self.position@[i] == p0[ii]);
                    }
                    assert(no_position(self.position@, o.order.symbol@));
                    assert(pos.position.symbol@ == o.order.symbol@);
                }
                let ghost s2 = *self;
                let ghost sym = o.order.symbol@;
                if same_side {
                    self.handle_add_position(id, &o, fee_rate, pos)?;
                    proof {
                        let p1 = self.position@;
                        assert(p1 == s2.position@.push(p1.last()));
                        lemma_position_of_pushed(s2.position@, p1.last(), sym);
                        assert forall|other: Seq<char>| other != sym implies #[trigger] position_of(*self, other)
                            == position_of(s00, other) by {
                            lemma_other_positions_kept(p0, k as int, Some(p1.last()), sym, other);
                        }
                        assert forall|s: Seq<char>| s != sym && #[trigger] no_orders_of(s00, s) implies no_orders_of(*self, s) by {
                            assert(no_orders_of(s2, s));
                        }
                    }
                } else {
                    self.close_against(id, &o, fee_rate, pos)?;
                    proof {
                        let p1 = self.position@;
                        assert forall|other: Seq<char>| other != sym implies #[trigger] position_of(*self, other)
                            == position_of(s00, other) by {
                            if p1 == s2.position@ {
                                lemma_other_positions_kept(p0, k as int, None, sym, other);
                            } else {
                                lemma_other_positions_kept(p0, k as int, Some(p1.last()), sym, other);
                            }
                        }
                        assert forall|s: Seq<char>| s != sym && #[trigger] no_orders_of(s00, s) implies no_orders_of(*self, s) by {
                            assert(no_orders_of(s2, s));
                        }
                    }
                }
            },
            None => {
                proof {
                    crate::exchange::lemma_position_index_from(self.position@, o.order.symbol@, 0);
                }
                let ghost s2 = *self;
                self.handle_open_position(id, &o, fee_rate)?;
                proof {
                    let p1 = self.position@;
                    assert(p1 == s2.position@.push(p1.last()));
                    lemma_position_of_pushed(s2.position@, p1.last(), o.order.symbol@);
                    assert forall|other: Seq<char>| other != o.order.symbol@ implies #[trigger] position_of(*self, other)
                        == position_of(s00, other) by {
                        lemma_push_keeps_others(s2.position@, p1.last(), o.order.symbol@, other);
                    }
                    assert forall|s: Seq<char>| s != o.order.symbol@ && #[trigger] no_orders_of(s00, s) implies no_orders_of(
                        *self,
                        s,
                    ) by {
                        assert(no_orders_of(s2, s));
                    }
                }
            },
        }
        assert(forall|other: Seq<char>| other != o.order.symbol@ ==> #[trigger] position_of(*self, other)
            == position_of(s00, other));
        assert(forall|s: Seq<char>| s != o.order.symbol@ && #[trigger] no_orders_of(s00, s) ==> no_orders_of(*self, s));
        o.status = Status::Filled;
        o.cumulative_quantity = o.order.quantity;
        let ghost h = book_entries(self.history_order_list);
        let ghost og = o;
        let ghost s3 = *self;
        self.record_history(o);
        proof {
            lemma_insert_lookup(h, og.id@, og);
            crate::book::lemma_lookup_insert(h, og.id@, og, og.id@);
            assert forall|other: Seq<char>| other != og.order.symbol@ implies #[trigger] position_of(*self, other)
                == position_of(s00, other) by {
                assert(position_of(s3, other) == position_of(s00, other));
            }
            assert forall|s: Seq<char>| s != og.order.symbol@ && #[trigger] no_orders_of(s00, s) implies no_orders_of(*self, s)
                && position_of(*self, s) == position_of(s00, s) by {
                assert(no_orders_of(s3, s));
                assert(position_of(*self, s) == position_of(s00, s));
            }
        }
        Ok(())
    }

    /// Fills `o` against the opposite position `pos` (already taken out of the list).
    fn close_against(&mut self, id: &str, o: &OrderEx, fee_rate: Dec, pos: PositionEx) -> (r: Result<(), ExchangeError>)
        requires
            old(self).wf(),
            old(self).has_symbol(o.order.symbol@),
            no_position(old(self).position@, o.order.symbol@),
            pos.position.symbol@ == o.order.symbol@,
            pos.position.side != o.order.side,
        ensures
            final(self).wf(),
            engine_frame(*old(self), *final(self)),
            user_orders_kept(*old(self), *final(self)),
            unfiled_kept(*old(self), *final(self)),
            final(self).history_order_list == old(self).history_order_list,
            r matches Err(e) ==> e == ExchangeError::Overflow || e == ExchangeError::MissingLiquidationOrder,
            r is Ok ==> position_after_fill(Some(pos), position_of(*final(self), o.order.symbol@), *o,
                old(self).leverage_spec(o.order.symbol@), old(self).metadata_of(o.order.symbol@).maintenance@,
                old(self).kline_spec(o.order.symbol@).time),
            r is Ok ==> Some(final(self).cash@) == cash_after_fill(Some(pos), *o, old(self).cash@,
                old(self).leverage_spec(o.order.symbol@)),
            r is Ok ==> final(self).position@ == old(self).position@ || (final(self).position@ == old(self).position@.push(
                final(self).position@.last()) && final(self).position@.last().0@ == o.order.symbol@),
            r is Ok ==> others_untouched(*old(self), *final(self), o.order.symbol@),
            against_ok(*old(self), old(self).cash@, *o, o.freeze_margin@, fee_rate@, pos) ==> r is Ok,
    {
        let ghost s0 = *self;
        let ghost pos0 = pos;
        let mut pos = pos;
        let kline_time = self.kline(o.order.symbol.as_str()).time;
        let close_quantity = o.order.quantity.min(pos.position.quantity);
        let remain = match o.order.quantity.checked_sub(&pos.position.quantity) {
            Some(q) => q,
            None => {
                return Err(ExchangeError::Overflow);
            },
        };
        let (close_margin, close_profit) = calc_close_metrics(&pos.position, o.avg_price, o.kind, close_quantity)?;
        pos.position.quantity = match pos.position.quantity.checked_sub(&close_quantity) {
            Some(q) => q,
            None => {
                return Err(ExchangeError::Overflow);
            },
        };
        pos.position.margin = match pos.position.margin.checked_sub(&close_margin) {
            Some(m) => m,
            None => {
                return Err(ExchangeError::Overflow);
            },
        };
        let released = match close_margin.checked_add(&close_profit) {
            Some(x) => x,
            None => {
                return Err(ExchangeError::Overflow);
            },
        };
        self.cash = match self.cash.checked_add(&released) {
            Some(c) => c,
            None => {
                return Err(ExchangeError::Overflow);
            },
        };
        let fee = calc_fee(o.avg_price, close_quantity, fee_rate)?;
        pos.log.push(
            Record {
                id: id.to_owned(),
                kind: o.kind,
                side: o.order.side,
                price: o.avg_price,
                quantity: o.order.quantity,
                profit: close_profit,
                fee,
                time: kline_time,
            },
        );
        proof {
            let lg = pos0.log@;
            let rec = pos.log@.last();
            assert(pos.log@ == lg.push(rec));
            lemma_log_push(lg, rec, pos0.position.side, lg.len() as int);
        }
        let (profit_sum, fee_sum) = pos.sum_profit_fee()?;
        let max_quantity = pos.calc_max_quantity()?;
        let zero = Dec::zero();
        let ghost sym = o.order.symbol@;
        let ghost s1 = *self;
        assert(others_untouched(s0, s1, sym));
        if remain.gt(&zero) {
            self.handle_reverse_position(id, pos, o, fee_rate, remain, max_quantity, profit_sum, fee_sum)?;
            proof {
                let p1 = self.position@;
                assert(p1 == s1.position@.push(p1.last()));
                lemma_position_of_pushed(s1.position@, p1.last(), sym);
                lemma_others_untouched_trans(s0, s1, *self, sym);
            }
            Ok(())
        } else if remain.eq_val(&zero) {
            self.handle_close_position(pos, o, max_quantity, profit_sum, fee_sum)?;
            proof {
                crate::exchange::lemma_position_index_from(self.position@, sym, 0);
                lemma_others_untouched_trans(s0, s1, *self, sym);
            }
            Ok(())
        } else {
            self.handle_partial_close_position(pos, o, max_quantity, profit_sum, fee_sum)?;
            proof {
                let p1 = self.position@;
                assert(p1 == s1.position@.push(p1.last()));
                lemma_position_of_pushed(s1.position@, p1.last(), sym);
                lemma_others_untouched_trans(s0, s1, *self, sym);
            }
            Ok(())
        }
    }
}

/// The queue of orders to match grows by at most one, and only when a trigger order
/// leaves the book.
pub open spec fn queue_progress(
    old_book: Seq<(Seq<char>, OrderEx)>,
    new_book: Seq<(Seq<char>, OrderEx)>,
    old_queue: Seq<String>,
    new_queue: Seq<String>,
) -> bool {
    2 * trigger_count(new_book) + new_queue.len() <= 2 * trigger_count(old_book) + old_queue.len()
}

impl LocalExchange {
    /// A waiting trigger order that fired: it leaves the book and places its order
    /// (see `fired_order`), whose id joins the queue. The trigger order is filed as
    /// filled, or as rejected when the placement fails for want of cash.
    fn handle_trigger_order(&mut self, order_id: &str, queue: &mut VecDeque<String>) -> (r: Result<(), ExchangeError>)
        requires
            old(self).wf(),
            pending_entry(*old(self), order_id@) matches Some(o) && o.kind == Kind::Trigger,
        ensures
            final(self).wf(),
            engine_frame(*old(self), *final(self)),
            user_orders_kept_except(*old(self), *final(self), order_id@),
            trigger_count(book_entries(final(self).pending_order_list)) < trigger_count(book_entries(old(self).pending_order_list)),
            final(queue)@ == old(queue)@ || (exists|x: String| final(queue)@ == old(queue)@.push(x)),
            r is Ok ==> settled(*final(self), order_id@),
            r is Ok ==> ({
                let o = pending_entry(*old(self), order_id@).unwrap();
                let t = old(self).kline_spec(o.order.symbol@).time;
                crate::book::lookup(book_entries(final(self).history_order_list), order_id@) matches Some(x)
                    && x == filed_as(o, x.status, t) && if x.status == Status::Filled {
                        &&& final(queue)@.len() == old(queue)@.len() + 1
                        &&& final(queue)@.drop_last() == old(queue)@
                        &&& pending_entry(*final(self), final(queue)@.last()@) matches Some(p)
                        &&& p.order == fired_order(o.order)
                        &&& p.kind == fired_kind(o.order)
                    } else {
                        x.status == Status::Rejected && final(queue)@ == old(queue)@
                    }
            }),
            r matches Err(e) ==> e == ExchangeError::Overflow,
            r is Ok ==> others_untouched(*old(self), *final(self), pending_entry(*old(self), order_id@).unwrap().order.symbol@),
            trigger_match_ok(*old(self), order_id@) ==> r is Ok,
    {
        let ghost s0 = *self;
        let o = self.take_pending(order_id).unwrap();
        proof {
            let e0 = book_entries(s0.pending_order_list);
            crate::book::lemma_key_position_found(e0, order_id@);
            let p = key_position(e0, order_id@);
            assert(crate::exchange::source_index(s0.timeline.data_source@, e0[p].1.order.symbol@)
                < s0.timeline.data_source@.len());
            assert(self.has_symbol(o.order.symbol@));
        }
        let price = if o.order.price.is_zero() {
            o.order.trigger_price
        } else {
            o.order.price
        };
        let kind = if o.order.price.is_zero() {
            Kind::Market
        } else {
            Kind::Limit
        };
        let placed = Order {
            symbol: o.order.symbol.clone(),
            side: o.order.side,
            trigger_price: Dec::zero(),
            price,
            quantity: o.order.quantity,
            reduce_only: o.order.reduce_only,
        };
        let ghost s1 = *self;
        let result = self.place_order_inner(placed, kind);
        let ghost s2 = *self;
        proof {
            let sym = o.order.symbol@;
            assert forall|s: Seq<char>| s != sym && #[trigger] no_orders_of(s0, s) implies no_orders_of(s2, s) && position_of(
                s2,
                s,
            ) == position_of(s0, s) by {
                assert(no_orders_of(s1, s));
                if let Ok(id) = result {
                    crate::book::lemma_free_insert(book_entries(s1.pending_order_list), id@, crate::exchange::stored(s2, id), s);
                }
            }
        }
        let mut o = o;
        o.update_time = self.kline(o.order.symbol.as_str()).time;
        match result {
            Ok(id) => {
                queue.push_back(id);
                o.status = Status::Filled;
            },
            Err(ExchangeError::CashShortage) => {
                o.status = Status::Rejected;
            },
            Err(_) => {
                return Err(ExchangeError::Overflow);
            },
        }
        let ghost h = book_entries(self.history_order_list);
        let ghost og = o;
        self.record_history(o);
        proof {
            lemma_insert_lookup(h, og.id@, og);
            assert forall|s: Seq<char>| s != og.order.symbol@ && #[trigger] no_orders_of(s0, s) implies no_orders_of(*self, s)
                && position_of(*self, s) == position_of(s0, s) by {
                assert(no_orders_of(s2, s));
            }
        }
        Ok(())
    }

    /// A waiting limit or liquidation order that fills on the current k-line (see
    /// `fill_price`) leaves the book and is executed at that price, with the maker fee
    /// for a limit order and the taker fee for a liquidation.
    fn handle_limit_or_liquidation_order(&mut self, order_id: &str) -> (r: Result<(), ExchangeError>)
        requires
            old(self).wf(),
            pending_entry(*old(self), order_id@) is Some,
        ensures
            final(self).wf(),
            engine_frame(*old(self), *final(self)),
            user_orders_kept_except(*old(self), *final(self), order_id@),
            ({
                let o = pending_entry(*old(self), order_id@).unwrap();
                let k = old(self).kline_spec(o.order.symbol@);
                &&& fill_price(o, k) is None ==> *final(self) == *old(self) && r is Ok
                &&& fill_price(o, k) is Some && r is Ok ==> settled(*final(self), order_id@)
                    && filed_fill(*final(self), order_id@, fill_price(o, k).unwrap()@)
            }),
            r matches Err(e) ==> e == ExchangeError::Overflow || e == ExchangeError::MissingLiquidationOrder
                || e == ExchangeError::CashShortage,
            r is Ok ==> others_untouched(*old(self), *final(self), pending_entry(*old(self), order_id@).unwrap().order.symbol@),
            ({
                let o = pending_entry(*old(self), order_id@).unwrap();
                fill_price(o, old(self).kline_spec(o.order.symbol@)) is Some
            }) && limit_match_ok(*old(self), order_id@) ==> r is Ok,
    {
        let ghost e = book_entries(self.pending_order_list);
        let p = book_position(&self.pending_order_list, order_id).unwrap();
        proof {
            crate::book::lemma_key_position(e, order_id@, p as int);
        }
        let entry = book_value_at(&self.pending_order_list, p);
        proof {
            assert(crate::exchange::source_index(self.timeline.data_source@, e[p as int].1.order.symbol@)
                < self.timeline.data_source@.len());
        }
        let kline = self.kline(entry.order.symbol.as_str());
        let price = match limit_fill_price(entry, &kline) {
            Some(p) => p,
            None => {
                return Ok(());
            },
        };
        let ghost s_pre = *self;
        let mut o = self.take_pending(order_id).unwrap();
        o.avg_price = price;
        let fee_rate = match self.get_metadata(o.order.symbol.as_str()) {
            Ok(md) => if o.kind == Kind::Liquidation {
                md.taker_fee
            } else {
                md.maker_fee
            },
            Err(_) => {
                return Err(ExchangeError::Overflow);
            },
        };
        proof {
            if limit_match_ok(s_pre, order_id@) {
                lemma_exec_ok_after_take(s_pre, *self, order_id@, o, fee_rate@);
            }
        }
        self.execute_order(order_id, o, fee_rate)
    }
}

impl LocalExchange {
    /// A waiting market order leaves the book and is executed with the taker fee at
    /// the open price (or, for an order placed by a trigger, at its price) moved by
    /// the slippage and kept within the k-line (see `calc_market_price_slippage`).
    fn handle_market_order(&mut self, order_id: &str) -> (r: Result<(), ExchangeError>)
        requires
            old(self).wf(),
            pending_entry(*old(self), order_id@) is Some,
        ensures
            final(self).wf(),
            engine_frame(*old(self), *final(self)),
            user_orders_kept_except(*old(self), *final(self), order_id@),
            r is Ok ==> settled(*final(self), order_id@),
            r is Ok ==> ({
                let o = pending_entry(*old(self), order_id@).unwrap();
                market_fill_view(o, old(self).kline_spec(o.order.symbol@), old(self).slippage@) matches Some(p)
                    && filed_fill(*final(self), order_id@, p)
            }),
            r matches Err(e) ==> e == ExchangeError::Overflow || e == ExchangeError::MissingLiquidationOrder
                || e == ExchangeError::CashShortage || e == ExchangeError::InvalidKLine,
            r is Ok ==> others_untouched(*old(self), *final(self), pending_entry(*old(self), order_id@).unwrap().order.symbol@),
            market_match_ok(*old(self), order_id@) ==> r is Ok,
    {
        let ghost e = book_entries(self.pending_order_list);
        proof {
            crate::book::lemma_key_position_found(e, order_id@);
            let p = key_position(e, order_id@);
            assert(crate::exchange::source_index(self.timeline.data_source@, e[p].1.order.symbol@)
                < self.timeline.data_source@.len());
        }
        let ghost s_pre = *self;
        let mut o = self.take_pending(order_id).unwrap();
        let kline = self.kline(o.order.symbol.as_str());
        let base = if o.order.price.is_zero() {
            kline.open
        } else {
            o.order.price
        };
        let price = self.calc_market_price_slippage(o.order.side, base, kline)?;
        o.order.price = price;
        o.avg_price = price;
        let fee_rate = match self.get_metadata(o.order.symbol.as_str()) {
            Ok(md) => md.taker_fee,
            Err(_) => {
                return Err(ExchangeError::Overflow);
            },
        };
        proof {
            if market_match_ok(s_pre, order_id@) {
                assert(exec_ok(s_pre, order_id@, priced(pending_entry(s_pre, order_id@).unwrap(), price, true), fee_rate@));
                lemma_exec_ok_after_take(s_pre, *self, order_id@, o, fee_rate@);
            }
        }
        self.execute_order(order_id, o, fee_rate)
    }

    /// Matches the waiting order stored under `order_id` against its symbol's current
    /// k-line: a trigger order fires when its trigger price is within the k-line, a
    /// limit or liquidation order fills when `fill_price` says so, and a market order
    /// always fills. An id that is no longer waiting, or an order that matching does
    /// not act on (`acts_on`), is skipped and succeeds.
    fn update_order(&mut self, order_id: &str, queue: &mut VecDeque<String>) -> (r: Result<(), ExchangeError>)
        requires
            old(self).wf(),
        ensures
            final(self).wf(),
            engine_frame(*old(self), *final(self)),
            user_orders_kept_except(*old(self), *final(self), order_id@),
            queue_progress(book_entries(old(self).pending_order_list), book_entries(final(self).pending_order_list),
                old(queue)@, final(queue)@),
            final(queue)@ == old(queue)@ || (exists|x: String| final(queue)@ == old(queue)@.push(x)),
            r is Ok ==> update_order_effect(*old(self), *final(self), order_id@),
            r is Ok ==> idle_symbols_kept(*old(self), *final(self)),
            match pending_entry(*old(self), order_id@) {
                None => r is Ok && *final(self) == *old(self) && final(queue)@ == old(queue)@,
                Some(o) => !acts_on(o, old(self).kline_spec(o.order.symbol@)) ==> r is Ok && *final(self) == *old(self)
                    && final(queue)@ == old(queue)@,
            },
            match_ok(*old(self), order_id@) ==> r is Ok,
            !(pending_entry(*old(self), order_id@) matches Some(o) && o.kind == Kind::Trigger) ==> final(queue)@
                == old(queue)@,
    {
        let ghost e = book_entries(self.pending_order_list);
        let p = match book_position(&self.pending_order_list, order_id) {
            Some(p) => p,
            None => {
                proof {
                    crate::book::lemma_key_position_absent(e, order_id@);
                }
                return Ok(());
            },
        };
        proof {
            crate::book::lemma_key_position(e, order_id@, p as int);
            assert(crate::exchange::source_index(self.timeline.data_source@, e[p as int].1.order.symbol@)
                < self.timeline.data_source@.len());
        }
        let entry = book_value_at(&self.pending_order_list, p);
        if entry.status != Status::Submitted {
            return Ok(());
        }
        let kline = self.kline(entry.order.symbol.as_str());
        if entry.kind == Kind::Trigger {
            if !(entry.order.trigger_price.ge(&kline.low) && entry.order.trigger_price.le(&kline.high)) {
                return Ok(());
            }
            self.handle_trigger_order(order_id, queue)
        } else if entry.kind == Kind::Limit || entry.kind == Kind::Liquidation {
            self.handle_limit_or_liquidation_order(order_id)
        } else {
            self.handle_market_order(order_id)
        }
    }
}

/// The order under `id` is filed in the history of `ex` as filled at a price of
/// value `price`, or as cancelled or rejected by the checks before a fill.
pub open spec fn filed_fill(ex: LocalExchange, id: Seq<char>, price: DecView) -> bool {
    crate::book::lookup(book_entries(ex.history_order_list), id) matches Some(x) && ((x.status == Status::Filled
        && x.avg_price@ == price) || x.status == Status::Canceled || x.status == Status::Rejected)
}

/// The price a waiting market order fills at on `k` with the given slippage: the open
/// (or, for an order placed by a trigger order, its own price) moved against the taker
/// by the slippage and kept within the k-line.
pub open spec fn market_fill_view(o: OrderEx, k: KLine, slippage: DecView) -> Option<DecView> {
    let base = if o.order.price.val() == 0 { k.open } else { o.order.price };
    match slipped_price(o.order.side, base@, slippage) {
        Some(p) => Some(clamp_view(p, k.low@, k.high@)),
        None => None,
    }
}

/// How the order `o`, matched on `k` with the given slippage, is filed under `id` in
/// the history of `ex`: a fired trigger order as filled (its order placed) or as
/// rejected (no cash for the order it places), at the k-line's time; a limit or
/// liquidation order as filled at `fill_price`; a market order as filled at
/// `market_fill_view`. A fill that the checks before it refused is filed as cancelled
/// or rejected (see `filed_fill`).
pub open spec fn due_fill(o: OrderEx, k: KLine, slippage: DecView, ex: LocalExchange, id: Seq<char>) -> bool {
    if o.kind == Kind::Trigger {
        crate::book::lookup(book_entries(ex.history_order_list), id) matches Some(x) && x == filed_as(o, x.status, k.time)
            && (x.status == Status::Filled || x.status == Status::Rejected)
    } else if o.kind == Kind::Limit || o.kind == Kind::Liquidation {
        filed_fill(ex, id, fill_price(o, k).unwrap()@)
    } else {
        market_fill_view(o, k, slippage) matches Some(p) && filed_fill(ex, id, p)
    }
}

/// The order `o` must fill on the k-line `k`: a market order, a trigger order whose
/// trigger price `k` reaches, or a limit order that `k` fills.
pub open spec fn must_fill(o: OrderEx, k: KLine) -> bool {
    ||| o.kind == Kind::Market
    ||| o.kind == Kind::Trigger && fires(o, k)
    ||| o.kind == Kind::Limit && fill_price(o, k) is Some
}

/// What matching did to the user order waiting under `id` in `before`, judged on its
/// symbol's k-line there: one that must fill is filed in the history as `due_fill`
/// says; any other still waits unchanged or has been filed.
pub open spec fn user_order_matched(before: LocalExchange, after: LocalExchange, id: Seq<char>) -> bool {
    is_user_order(pending_entry(before, id)) ==> {
        let o = pending_entry(before, id).unwrap();
        let k = before.kline_spec(o.order.symbol@);
        if must_fill(o, k) {
            due_fill(o, k, before.slippage@, after, id)
        } else {
            pending_entry(after, id) == Some(o) || settled(after, id)
        }
    }
}

/// Every user order waiting in `before` was matched into `after` (see
/// `user_order_matched`).
pub open spec fn orders_matched(before: LocalExchange, after: LocalExchange) -> bool {
    forall|k: Seq<char>| #[trigger] user_order_matched(before, after, k)
}

/// `ex` with the k-lines and the timeline of `loaded`: the state that matching starts
/// from once a step's k-lines are loaded.
pub open spec fn with_klines_of(ex: LocalExchange, loaded: LocalExchange) -> LocalExchange {
    LocalExchange { klines: loaded.klines, timeline: loaded.timeline, ..ex }
}

/// `before` with the k-lines, the timeline and the pacemaker of `after`: the state
/// that matching starts from once the pacemaker's `next` has loaded a step.
pub open spec fn step_start(before: LocalExchange, after: LocalExchange) -> LocalExchange {
    LocalExchange { klines: after.klines, timeline: after.timeline, pacemaker: after.pacemaker, ..before }
}

/// The key `k` stands in `q` from index `from` on.
pub open spec fn queued(q: Seq<String>, from: int, k: Seq<char>) -> bool {
    exists|w: int| from <= w < q.len() && #[trigger] q[w]@ == k
}

/// The user order under `k` in the entries `e0` of `s_start` is done, or still waits
/// unchanged and need not fill.
pub open spec fn done_or_waiting(e0: Seq<(Seq<char>, OrderEx)>, s_start: LocalExchange, cur: LocalExchange, k: Seq<char>) -> bool {
    let o = crate::book::lookup(e0, k).unwrap();
    let kl = s_start.kline_spec(o.order.symbol@);
    ||| must_fill(o, kl) && due_fill(o, kl, s_start.slippage@, cur, k)
    ||| !must_fill(o, kl) && (settled(cur, k) || pending_entry(cur, k) == crate::book::lookup(e0, k))
}

/// The same while the queue still holds `all[p..]`: a user order may also still wait
/// unchanged with its id in the queue.
pub open spec fn progress(e0: Seq<(Seq<char>, OrderEx)>, s_start: LocalExchange, cur: LocalExchange, all: Seq<String>, p: int, k: Seq<char>) -> bool {
    ||| done_or_waiting(e0, s_start, cur, k)
    ||| pending_entry(cur, k) == crate::book::lookup(e0, k) && queued(all, p, k)
}

pub proof fn lemma_progress_step(
    e0: Seq<(Seq<char>, OrderEx)>,
    s_start: LocalExchange,
    s0: LocalExchange,
    s1: LocalExchange,
    all0: Seq<String>,
    all1: Seq<String>,
    p0: int,
    x: Seq<char>,
    k: Seq<char>,
)
    requires
        is_user_order(crate::book::lookup(e0, k)),
        progress(e0, s_start, s0, all0, p0, k),
        0 <= p0 < all0.len(),
        all0[p0]@ == x,
        all1 == all0 || exists|y: String| all1 == all0.push(y),
        engine_frame(s_start, s0),
        engine_frame(s0, s1),
        user_orders_kept_except(s0, s1, x),
        update_order_effect(s0, s1, x),
    ensures
        progress(e0, s_start, s1, all1, p0 + 1, k),
{
    let o = crate::book::lookup(e0, k).unwrap();
    let kl = s_start.kline_spec(o.order.symbol@);
    assert(s0.kline_spec(o.order.symbol@) == kl);
    let h0 = book_entries(s0.history_order_list);
    if crate::book::lookup(h0, k) is Some {
        assert(crate::book::lookup(book_entries(s1.history_order_list), k) == crate::book::lookup(h0, k));
        assert(settled(s0, k) ==> settled(s1, k));
        assert(due_fill(o, kl, s_start.slippage@, s0, k) ==> due_fill(o, kl, s_start.slippage@, s1, k));
        if pending_entry(s0, k) == crate::book::lookup(e0, k) && k != x {
            assert(is_user_order(crate::book::lookup(book_entries(s0.pending_order_list), k)));
            if queued(all0, p0, k) {
                let w = choose|w: int| p0 <= w < all0.len() && #[trigger] all0[w]@ == k;
                assert(w != p0);
                if all1 != all0 {
                    let y = choose|y: String| all1 == all0.push(y);
                    assert(all1[w] == all0[w]);
                }
                assert(all1[w]@ == k);
            }
        } else if pending_entry(s0, k) == crate::book::lookup(e0, k) {
            assert(pending_entry(s0, x) == Some(o));
        }
    } else if k != x {
        assert(is_user_order(crate::book::lookup(book_entries(s0.pending_order_list), k)));
        if pending_entry(s0, k) == crate::book::lookup(e0, k) && queued(all0, p0, k) {
            let w = choose|w: int| p0 <= w < all0.len() && #[trigger] all0[w]@ == k;
            assert(w != p0);
            if all1 != all0 {
                let y = choose|y: String| all1 == all0.push(y);
                assert(all1[w] == all0[w]);
            }
            assert(all1[w]@ == k);
        }
    } else {
        assert(pending_entry(s0, x) == Some(o));
    }
}

/// Matching acts on the waiting order `o` on the k-line `k`: a trigger order fires, a
/// limit or liquidation order fills, a market order always fills.
pub open spec fn acts_on(o: OrderEx, k: KLine) -> bool {
    if o.kind == Kind::Trigger {
        fires(o, k)
    } else if o.kind == Kind::Limit || o.kind == Kind::Liquidation {
        fill_price(o, k) is Some
    } else {
        true
    }
}

/// Matching acts on no waiting order of `ex` on the current k-lines (see `acts_on`).
pub open spec fn nothing_acts(ex: LocalExchange) -> bool {
    forall|k: Seq<char>| #[trigger] pending_entry(ex, k) matches Some(o) ==> !acts_on(o, ex.kline_spec(o.order.symbol@))
}

/// What `update_order` does to the order under `id` (see its contract).
pub open spec fn update_order_effect(old: LocalExchange, new: LocalExchange, id: Seq<char>) -> bool {
    match pending_entry(old, id) {
        None => new == old,
        Some(o) => {
            let k = old.kline_spec(o.order.symbol@);
            if o.kind == Kind::Trigger {
                if fires(o, k) { due_fill(o, k, old.slippage@, new, id) } else { new == old }
            } else if o.kind == Kind::Limit || o.kind == Kind::Liquidation {
                if fill_price(o, k) is Some { due_fill(o, k, old.slippage@, new, id) } else { new == old }
            } else {
                due_fill(o, k, old.slippage@, new, id)
            }
        },
    }
}

/// Every position is marked to its symbol's current close: its unrealised profit and
/// its liquidation price are those of its current entry price, quantity and margin.
pub open spec fn marked_to_market(ex: LocalExchange) -> bool {
    forall|k: int| 0 <= k < ex.position@.len() ==> {
        let sym = #[trigger] ex.position@[k].0@;
        let p = ex.position@[k].1.position;
        &&& Some(p.profit@) == unrealized_profit(p.side, p.open_avg_price@, ex.kline_spec(sym).close@, p.quantity@)
        &&& Some(p.liquidation_price@) == crate::margin::liquidation_price_spec(p.leverage,
            ex.metadata_of(sym).maintenance@, p.side, p.open_avg_price@, p.quantity@, p.margin@)
    }
}

/// Every position's unrealised profit at its symbol's close, and its liquidation
/// price, can be computed without a decimal overflow.
pub open spec fn marks_defined(ex: LocalExchange) -> bool {
    forall|k: int| 0 <= k < ex.position@.len() ==> {
        let sym = #[trigger] ex.position@[k].0@;
        let p = ex.position@[k].1.position;
        &&& unrealized_profit(p.side, p.open_avg_price@, ex.kline_spec(sym).close@, p.quantity@) is Some
        &&& crate::margin::liquidation_price_spec(p.leverage, ex.metadata_of(sym).maintenance@, p.side,
            p.open_avg_price@, p.quantity@, p.margin@) is Some
    }
}

/// Matching acts on the waiting order under `id` alone, a market, limit or
/// liquidation order that can be matched without a decimal overflow (`match_ok`):
/// every other waiting order is one that matching does not act on, and none of them
/// is a liquidation order.
pub open spec fn sole_match(ex: LocalExchange, id: Seq<char>) -> bool {
    &&& pending_entry(ex, id) matches Some(o) && (o.kind == Kind::Market || o.kind == Kind::Limit || o.kind
        == Kind::Liquidation)
    &&& match_ok(ex, id)
    &&& forall|k: Seq<char>| k != id && #[trigger] pending_entry(ex, k) is Some ==> ({
        let o = pending_entry(ex, k).unwrap();
        !acts_on(o, ex.kline_spec(o.order.symbol@)) && o.kind != Kind::Liquidation
    })
}

/// Some waiting order is matched alone, without a decimal overflow (see `sole_match`).
pub open spec fn sole_match_defined(ex: LocalExchange) -> bool {
    exists|id: Seq<char>| #[trigger] sole_match(ex, id)
}

/// Changing only the marks of the positions changes nothing of whether they can be
/// computed.
pub proof fn lemma_marks_defined_kept(a: LocalExchange, b: LocalExchange)
    requires
        marks_only(a, b),
    ensures
        marks_defined(a) == marks_defined(b),
{
    assert(b.timeline == a.timeline && b.klines == a.klines);
    if marks_defined(a) {
        assert forall|k: int| 0 <= k < b.position@.len() implies {
            let sym = #[trigger] b.position@[k].0@;
            let p = b.position@[k].1.position;
            &&& unrealized_profit(p.side, p.open_avg_price@, b.kline_spec(sym).close@, p.quantity@) is Some
            &&& crate::margin::liquidation_price_spec(p.leverage, b.metadata_of(sym).maintenance@, p.side,
                p.open_avg_price@, p.quantity@, p.margin@) is Some
        } by {
            assert(remarked(a.position@[k], b.position@[k]));
            assert(a.position@[k].0@ == b.position@[k].0@);
        }
    }
    if marks_defined(b) {
        assert forall|k: int| 0 <= k < a.position@.len() implies {
            let sym = #[trigger] a.position@[k].0@;
            let p = a.position@[k].1.position;
            &&& unrealized_profit(p.side, p.open_avg_price@, a.kline_spec(sym).close@, p.quantity@) is Some
            &&& crate::margin::liquidation_price_spec(p.leverage, a.metadata_of(sym).maintenance@, p.side,
                p.open_avg_price@, p.quantity@, p.margin@) is Some
        } by {
            assert(remarked(a.position@[k], b.position@[k]));
            assert(b.position@[k].0@ == a.position@[k].0@);
        }
    }
}

/// While a step matches one order alone (`sole_match`), the id matched next, a user
/// order of the book the step started from or the sole order itself, can be matched
/// without a decimal overflow: before the sole order is matched the state is the
/// starting one, and afterwards every other user order still waits unchanged.
proof fn lemma_solo_step_ok(
    s_start: LocalExchange,
    e0: Seq<(Seq<char>, OrderEx)>,
    solo_id: Seq<char>,
    s0: LocalExchange,
    x: Seq<char>,
    done: bool,
)
    requires
        sole_match(s_start, solo_id),
        e0 == book_entries(s_start.pending_order_list),
        engine_frame(s_start, s0),
        !done ==> s0 == s_start,
        done ==> pending_entry(s0, solo_id) is None,
        done ==> forall|k: Seq<char>| k != solo_id && is_user_order(#[trigger] crate::book::lookup(e0, k))
            ==> pending_entry(s0, k) == crate::book::lookup(e0, k),
        done ==> (x == solo_id || is_user_order(crate::book::lookup(e0, x))),
    ensures
        match_ok(s0, x),
{
    if !done {
        if x != solo_id && pending_entry(s_start, x) is Some {
            assert(pending_entry(s_start, x) is Some);
        }
    } else if x != solo_id {
        assert(pending_entry(s0, x) == crate::book::lookup(e0, x));
        assert(pending_entry(s_start, x) is Some);
        let o = pending_entry(s_start, x).unwrap();
        assert(s0.kline_spec(o.order.symbol@) == s_start.kline_spec(o.order.symbol@));
    }
}

/// A key of the liquidation queue of a step that matches one order alone is that
/// order's: every other waiting order that is not a user order would be a
/// liquidation order or one that matching always acts on.
proof fn lemma_solo_liquidation_key(s_start: LocalExchange, e0: Seq<(Seq<char>, OrderEx)>, solo_id: Seq<char>, x: Seq<char>)
    requires
        sole_match(s_start, solo_id),
        e0 == book_entries(s_start.pending_order_list),
        crate::book::lookup(e0, x) is Some,
        !is_user_order(crate::book::lookup(e0, x)),
    ensures
        x == solo_id,
{
    if x != solo_id {
        assert(pending_entry(s_start, x) is Some);
    }
}

/// What matching one id does while a step matches one order alone: anything but the
/// sole order's first match changes nothing (nor the queue); that match files the
/// sole order and keeps every other user order waiting unchanged.
proof fn lemma_solo_step_after(
    s_start: LocalExchange,
    e0: Seq<(Seq<char>, OrderEx)>,
    solo_id: Seq<char>,
    s0: LocalExchange,
    s1: LocalExchange,
    x: Seq<char>,
    done: bool,
    q_old: Seq<String>,
    q_new: Seq<String>,
)
    requires
        sole_match(s_start, solo_id),
        e0 == book_entries(s_start.pending_order_list),
        engine_frame(s_start, s0),
        !done ==> s0 == s_start,
        done ==> pending_entry(s0, solo_id) is None,
        done ==> forall|k: Seq<char>| k != solo_id && is_user_order(#[trigger] crate::book::lookup(e0, k))
            ==> pending_entry(s0, k) == crate::book::lookup(e0, k),
        done ==> (x == solo_id || is_user_order(crate::book::lookup(e0, x))),
        s1.wf(),
        update_order_effect(s0, s1, x),
        user_orders_kept_except(s0, s1, x),
        match pending_entry(s0, x) {
            None => s1 == s0 && q_new == q_old,
            Some(o) => !acts_on(o, s0.kline_spec(o.order.symbol@)) ==> s1 == s0 && q_new == q_old,
        },
        !(pending_entry(s0, x) matches Some(o) && o.kind == Kind::Trigger) ==> q_new == q_old,
    ensures
        q_new == q_old,
        (x != solo_id || done) ==> s1 == s0,
        !done && x == solo_id && s1 != s0 ==> pending_entry(s1, solo_id) is None,
        !done && x == solo_id && s1 != s0 ==> forall|k: Seq<char>| k != solo_id && is_user_order(
            #[trigger] crate::book::lookup(e0, k),
        ) ==> pending_entry(s1, k) == crate::book::lookup(e0, k),
{
    if !done {
        if x != solo_id && pending_entry(s_start, x) is Some {
            assert(pending_entry(s_start, x) is Some);
        }
        if x == solo_id {
            let o = pending_entry(s0, x).unwrap();
            let k = s0.kline_spec(o.order.symbol@);
            if acts_on(o, k) {
                assert(due_fill(o, k, s0.slippage@, s1, x));
                assert(crate::book::lookup(book_entries(s1.history_order_list), x) is Some);
                lemma_filed_not_waiting(s1, x);
            }
        }
    } else if x != solo_id {
        assert(pending_entry(s0, x) == crate::book::lookup(e0, x));
        assert(pending_entry(s_start, x) is Some);
        let o = pending_entry(s_start, x).unwrap();
        assert(s0.kline_spec(o.order.symbol@) == s_start.kline_spec(o.order.symbol@));
    }
}

/// An order filed in the history no longer waits.
pub proof fn lemma_filed_not_waiting(ex: LocalExchange, id: Seq<char>)
    requires
        ex.wf(),
        crate::book::lookup(book_entries(ex.history_order_list), id) is Some,
    ensures
        pending_entry(ex, id) is None,
{
    let e = book_entries(ex.pending_order_list);
    crate::book::lemma_key_position_found(e, id);
    if key_position(e, id) >= 0 {
        assert(crate::book::lookup(book_entries(ex.history_order_list), e[key_position(e, id)].0) is None);
    }
}

impl LocalExchange {
    /// Matches every waiting order against the current k-lines: first the user orders
    /// in book order (with the orders that fired trigger orders place, in turn), then
    /// the liquidation orders; then marks every position to market. Every user order
    /// waiting at the start is matched as `user_order_matched` says; a symbol without
    /// waiting orders keeps its position but for its marks (`idle_symbols_marked`);
    /// with no order waiting at all, only the positions' marks change (`marks_only`).
    /// A step on which matching acts on no order succeeds exactly when the marks can
    /// be computed (`marks_defined`), and changes only them. A step on which it acts on
    /// one order alone that can be matched without a decimal overflow (`sole_match`)
    /// succeeds exactly when the marks can then be computed.
    pub fn update(&mut self) -> (r: Result<(), ExchangeError>)
        requires
            old(self).wf(),
        ensures
            final(self).wf(),
            engine_frame(*old(self), *final(self)),
            r is Ok ==> marked_to_market(*final(self)),
            r is Ok ==> orders_matched(*old(self), *final(self)),
            r is Ok && book_entries(old(self).pending_order_list).len() == 0 ==> marks_only(*old(self), *final(self)),
            r is Ok ==> idle_symbols_marked(*old(self), *final(self)),
            nothing_acts(*old(self)) ==> (r is Ok <==> marks_defined(*old(self))),
            nothing_acts(*old(self)) && r is Ok ==> marks_only(*old(self), *final(self)),
            sole_match_defined(*old(self)) ==> (r is Ok <==> marks_defined(*final(self))),
    {
        let ghost e0 = book_entries(self.pending_order_list);
        let ghost s_start = *self;
        let ghost solo_id: Seq<char> = choose|id: Seq<char>| sole_match(s_start, id);
        let ghost solo: bool = sole_match(s_start, solo_id);
        proof {
            if sole_match_defined(s_start) {
                let w = choose|id: Seq<char>| #[trigger] sole_match(s_start, id);
                assert(sole_match(s_start, w));
            }
            assert(sole_match_defined(s_start) ==> solo);
        }
        let mut normal_queue: VecDeque<String> = VecDeque::new();
        let mut liquidation_queue: VecDeque<String> = VecDeque::new();
        let n = crate::book::book_len(&self.pending_order_list);
        let mut i: usize = 0;
        while i < n
            invariant
                n == book_entries(self.pending_order_list).len(),
                e0 == book_entries(self.pending_order_list),
                *self == s_start,
                s_start.wf(),
                i <= n,
                normal_queue@.len() + liquidation_queue@.len() <= i,
                forall|q: int| 0 <= q < i && is_user_order(Some(e0[q].1)) ==> #[trigger] queued(normal_queue@, 0, e0[q].0),
                forall|q: int| 0 <= q < liquidation_queue@.len() ==> !is_user_order(
                    #[trigger] crate::book::lookup(e0, liquidation_queue@[q]@),
                ),
                forall|q: int| 0 <= q < liquidation_queue@.len() ==> (#[trigger] crate::book::lookup(e0,
                    liquidation_queue@[q]@)) is Some,
                forall|q: int| 0 <= q < normal_queue@.len() ==> is_user_order(
                    #[trigger] crate::book::lookup(e0, normal_queue@[q]@),
                ),
            decreases n - i,
        {
            let o = book_value_at(&self.pending_order_list, i);
            proof {
                crate::book::lemma_key_position(e0, e0[i as int].0, i as int);
                assert(e0[i as int].0 == e0[i as int].1.id@);
            }
            if o.kind.is_normal() {
                let ghost q_before = normal_queue@;
                normal_queue.push_back(o.id.clone());
                proof {
                    assert forall|q: int| 0 <= q < i + 1 && is_user_order(Some(e0[q].1)) implies #[trigger] queued(normal_queue@, 0, e0[q].0) by {
                        if q < i {
                            assert(queued(q_before, 0, e0[q].0));
                            let w = choose|w: int| 0 <= w < q_before.len() && #[trigger] q_before[w]@ == e0[q].0;
                            assert(normal_queue@[w] == q_before[w]);
                        } else {
                            assert(normal_queue@[q_before.len() as int]@ == e0[q].0);
                        }
                    }
                    assert forall|q: int| 0 <= q < normal_queue@.len() implies is_user_order(
                        #[trigger] crate::book::lookup(e0, normal_queue@[q]@),
                    ) by {
                        if q < q_before.len() {
                            assert(normal_queue@[q] == q_before[q]);
                        } else {
                            assert(normal_queue@[q]@ == e0[i as int].0);
                        }
                    }
                }
            } else {
                let ghost l_before = liquidation_queue@;
                liquidation_queue.push_back(o.id.clone());
                proof {
                    assert forall|q: int| 0 <= q < liquidation_queue@.len() implies !is_user_order(
                        #[trigger] crate::book::lookup(e0, liquidation_queue@[q]@),
                    ) && crate::book::lookup(e0, liquidation_queue@[q]@) is Some by {
                        if q < l_before.len() {
                            assert(liquidation_queue@[q] == l_before[q]);
                        } else {
                            assert(liquidation_queue@[q]@ == e0[i as int].0);
                        }
                    }
                }
            }
            i = i + 1;
        }
        let ghost q0 = normal_queue@;
        let ghost mut all: Seq<String> = normal_queue@;
        let ghost mut p: int = 0;
        let ghost mut done: bool = false;
        proof {
            assert forall|k: Seq<char>| is_user_order(#[trigger] crate::book::lookup(e0, k)) implies progress(e0, s_start, *self, all, p, k) by {
                crate::book::lemma_key_position_found(e0, k);
                let q = crate::book::key_position(e0, k);
                assert(queued(q0, 0, e0[q].0));
            }
        }
        while normal_queue.len() > 0
            invariant
                self.wf(),
                engine_frame(*old(self), *self),
                s_start == *old(self),
                e0 == book_entries(old(self).pending_order_list),
                0 <= p <= all.len(),
                normal_queue@ == all.subrange(p, all.len() as int),
                e0.len() == 0 ==> all.len() == 0 && *self == s_start && liquidation_queue@.len() == 0,
                nothing_acts(s_start) ==> *self == s_start,
                idle_symbols_kept(s_start, *self),
                forall|k: Seq<char>| is_user_order(#[trigger] crate::book::lookup(e0, k)) ==> progress(e0, s_start, *self, all, p, k),
                forall|q: int| 0 <= q < liquidation_queue@.len() ==> !is_user_order(
                    #[trigger] crate::book::lookup(e0, liquidation_queue@[q]@),
                ) && crate::book::lookup(e0, liquidation_queue@[q]@) is Some,
                solo == sole_match(s_start, solo_id),
                sole_match_defined(s_start) ==> solo,
                solo ==> forall|w: int| 0 <= w < all.len() ==> is_user_order(#[trigger] crate::book::lookup(e0, all[w]@)),
                solo && !done ==> *self == s_start,
                solo && done ==> pending_entry(*self, solo_id) is None,
                solo && done ==> forall|k: Seq<char>| k != solo_id && is_user_order(#[trigger] crate::book::lookup(e0, k))
                    ==> pending_entry(*self, k) == crate::book::lookup(e0, k),
            decreases 2 * trigger_count(book_entries(self.pending_order_list)) + normal_queue@.len(),
        {
            let id = normal_queue.pop_front().unwrap();
            let ghost s0 = *self;
            let ghost all0 = all;
            let ghost p0 = p;
            proof {
                assert(id == all0[p0]);
                p = p + 1;
            }
            let ghost q_mid = normal_queue@;
            proof {
                assert(q_mid =~= all0.subrange(p, all0.len() as int));
                if solo {
                    assert(is_user_order(crate::book::lookup(e0, all0[p0]@)));
                    lemma_solo_step_ok(s_start, e0, solo_id, s0, id@, done);
                }
            }
            self.update_order(id.as_str(), &mut normal_queue)?;
            proof {
                if solo {
                    lemma_solo_step_after(s_start, e0, solo_id, s0, *self, id@, done, q_mid, normal_queue@);
                    assert(normal_queue@ == q_mid);
                    if !done && id@ == solo_id && *self != s0 {
                        done = true;
                    }
                }
                lemma_engine_frame_trans(*old(self), s0, *self);
                lemma_idle_symbols_kept_trans(s_start, s0, *self);
                if normal_queue@ != q_mid {
                    assert(exists|x: String| normal_queue@ == q_mid.push(x));
                    let x = choose|x: String| normal_queue@ == q_mid.push(x);
                    all = all0.push(x);
                    assert(all.subrange(p, all.len() as int) =~= q_mid.push(x));
                    assert(normal_queue@ =~= all.subrange(p, all.len() as int));
                } else {
                    assert(normal_queue@ =~= all.subrange(p, all.len() as int));
                }
                assert forall|k: Seq<char>| is_user_order(#[trigger] crate::book::lookup(e0, k)) implies progress(e0, s_start, *self, all, p, k) by {
                    lemma_progress_step(e0, s_start, s0, *self, all0, all, p0, id@, k);
                }
            }
        }
        proof {
            assert forall|k: Seq<char>| is_user_order(#[trigger] crate::book::lookup(e0, k)) implies done_or_waiting(e0, s_start, *self, k) by {
                assert(progress(e0, s_start, *self, all, p, k));
                if queued(all, p, k) {
                    let w = choose|w: int| p <= w < all.len() && #[trigger] all[w]@ == k;
                    assert(normal_queue@[w - p] == all[w]);
                }
            }
        }
        let mut j: usize = 0;
        while j < liquidation_queue.len()
            invariant
                self.wf(),
                engine_frame(*old(self), *self),
                s_start == *old(self),
                e0 == book_entries(old(self).pending_order_list),
                e0.len() == 0 ==> *self == s_start && liquidation_queue@.len() == 0,
                nothing_acts(s_start) ==> *self == s_start,
                idle_symbols_kept(s_start, *self),
                forall|q: int| 0 <= q < liquidation_queue@.len() ==> !is_user_order(
                    #[trigger] crate::book::lookup(e0, liquidation_queue@[q]@),
                ),
                forall|k: Seq<char>| is_user_order(#[trigger] crate::book::lookup(e0, k)) ==> done_or_waiting(e0, s_start, *self, k),
                forall|q: int| 0 <= q < liquidation_queue@.len() ==> (#[trigger] crate::book::lookup(e0,
                    liquidation_queue@[q]@)) is Some,
                solo == sole_match(s_start, solo_id),
                sole_match_defined(s_start) ==> solo,
                solo && !done ==> *self == s_start,
                solo && done ==> pending_entry(*self, solo_id) is None,
                solo && done ==> forall|k: Seq<char>| k != solo_id && is_user_order(#[trigger] crate::book::lookup(e0, k))
                    ==> pending_entry(*self, k) == crate::book::lookup(e0, k),
            decreases liquidation_queue.len() - j,
        {
            let ghost s0 = *self;
            proof {
                assert(!is_user_order(crate::book::lookup(e0, liquidation_queue@[j as int]@)));
                assert(crate::book::lookup(e0, liquidation_queue@[j as int]@) is Some);
                if solo {
                    lemma_solo_liquidation_key(s_start, e0, solo_id, liquidation_queue@[j as int]@);
                    lemma_solo_step_ok(s_start, e0, solo_id, s0, liquidation_queue@[j as int]@, done);
                }
            }
            let ghost lq_j = liquidation_queue@[j as int]@;
            let ghost nq = normal_queue@;
            self.update_order(liquidation_queue[j].as_str(), &mut normal_queue)?;
            proof {
                if solo {
                    lemma_solo_step_after(s_start, e0, solo_id, s0, *self, lq_j, done, nq, normal_queue@);
                    if !done && lq_j == solo_id && *self != s0 {
                        done = true;
                    }
                }
                lemma_engine_frame_trans(*old(self), s0, *self);
                lemma_idle_symbols_kept_trans(s_start, s0, *self);
                assert forall|k: Seq<char>| is_user_order(#[trigger] crate::book::lookup(e0, k)) implies done_or_waiting(e0, s_start, *self, k) by {
                    assert(k != liquidation_queue@[j as int]@);
                    assert(done_or_waiting(e0, s_start, s0, k));
                }
            }
            j = j + 1;
        }
        let ghost s1 = *self;
        let r = self.mark_to_market();
        proof {
            if r is Ok {
                lemma_marks_defined_kept(s1, *self);
            }
            assert forall|s: Seq<char>| #[trigger] no_orders_of(*old(self), s) implies no_orders_of(*self, s) && marks_changed(
                position_of(*old(self), s),
                position_of(*self, s),
            ) by {
                lemma_marks_only_positions(s1, *self, s);
                assert(no_orders_of(s1, s));
            }
            if r is Ok {
                assert forall|k: Seq<char>| #[trigger] user_order_matched(*old(self), *self, k) by {
                    if is_user_order(pending_entry(*old(self), k)) {
                        assert(done_or_waiting(e0, s_start, s1, k));
                    }
                }
            }
        }
        r
    }

    /// Recomputes every position's unrealised profit at its symbol's close and its
    /// liquidation price.
    fn mark_to_market(&mut self) -> (r: Result<(), ExchangeError>)
        requires
            old(self).wf(),
        ensures
            final(self).wf(),
            engine_frame(*old(self), *final(self)),
            r is Ok ==> marked_to_market(*final(self)),
            final(self).pending_order_list == old(self).pending_order_list,
            final(self).history_order_list == old(self).history_order_list,
            marks_only(*old(self), *final(self)),
            r is Ok <==> marks_defined(*old(self)),
            r matches Err(e) ==> e == ExchangeError::Overflow && *final(self) == *old(self),
    {
        let ghost s0 = *self;
        let mut updates: Vec<(Dec, Dec)> = Vec::new();
        let mut k: usize = 0;
        while k < self.position.len()
            invariant
                self.wf(),
                *self == s0,
                k <= self.position@.len(),
                updates@.len() == k,
                forall|j: int| 0 <= j < k ==> {
                    let sym = self.position@[j].0@;
                    let p = self.position@[j].1.position;
                    &&& Some((#[trigger] updates@[j]).0@) == unrealized_profit(p.side, p.open_avg_price@, self.kline_spec(sym).close@, p.quantity@)
                    &&& Some(updates@[j].1@) == crate::margin::liquidation_price_spec(p.leverage,
                        self.metadata_of(sym).maintenance@, p.side, p.open_avg_price@, p.quantity@, p.margin@)
                },
            decreases self.position.len() - k,
        {
            proof {
                assert(crate::exchange::source_index(self.timeline.data_source@, self.position@[k as int].0@)
                    < self.timeline.data_source@.len());
            }
            let symbol = self.position[k].0.as_str();
            let close = self.kline(symbol).close;
            let maintenance = match self.get_metadata(symbol) {
                Ok(md) => md.maintenance,
                Err(_) => {
                    return Err(ExchangeError::Overflow);
                },
            };
            let p = &self.position[k].1.position;
            let diff = if p.side == Side::Buy {
                close.checked_sub(&p.open_avg_price)
            } else {
                p.open_avg_price.checked_sub(&close)
            };
            let profit = match diff {
                Some(d) => d.checked_mul(&p.quantity),
                None => None,
            };
            let profit = match profit {
                Some(x) => x,
                None => {
                    return Err(ExchangeError::Overflow);
                },
            };
            let liquidation_price = match crate::margin::checked_calc_liquidation_price(
                p.leverage,
                maintenance,
                p.side,
                p.open_avg_price,
                p.quantity,
                p.margin,
            ) {
                Some(x) => x,
                None => {
                    return Err(ExchangeError::Overflow);
                },
            };
            updates.push((profit, liquidation_price));
            k = k + 1;
        }
        assert(marks_defined(s0)) by {
            assert forall|j: int| 0 <= j < s0.position@.len() implies {
                let sym = #[trigger] s0.position@[j].0@;
                let p = s0.position@[j].1.position;
                &&& unrealized_profit(p.side, p.open_avg_price@, s0.kline_spec(sym).close@, p.quantity@) is Some
                &&& crate::margin::liquidation_price_spec(p.leverage, s0.metadata_of(sym).maintenance@, p.side,
                    p.open_avg_price@, p.quantity@, p.margin@) is Some
            } by {
                assert(Some(updates@[j].0@) == unrealized_profit(s0.position@[j].1.position.side,
                    s0.position@[j].1.position.open_avg_price@, s0.kline_spec(s0.position@[j].0@).close@,
                    s0.position@[j].1.position.quantity@));
            }
        }
        let mut k: usize = 0;
        while k < updates.len()
            invariant
                self.wf(),
                engine_frame(s0, *self),
                updates@.len() == s0.position@.len(),
                self.position@.len() == s0.position@.len(),
                self.cash == s0.cash,
                self.pending_order_list == s0.pending_order_list,
                self.history_order_list == s0.history_order_list,
                self.history_position_list == s0.history_position_list,
                self.id == s0.id,
                k <= updates@.len(),
                forall|j: int| 0 <= j < s0.position@.len() ==> (#[trigger] self.position@[j]).0 == s0.position@[j].0,
                forall|j: int| 0 <= j < s0.position@.len() ==> (#[trigger] self.position@[j]).1.log == s0.position@[j].1.log,
                forall|j: int| 0 <= j < s0.position@.len() ==> (#[trigger] self.position@[j]).1.liquidation_order_id
                    == s0.position@[j].1.liquidation_order_id,
                forall|j: int| 0 <= j < s0.position@.len() ==> (#[trigger] self.position@[j]).1.position == (if j < k {
                    crate::order::Position { profit: updates@[j].0, liquidation_price: updates@[j].1, ..s0.position@[j].1.position }
                } else {
                    s0.position@[j].1.position
                }),
            decreases updates.len() - k,
        {
            let (profit, liquidation_price) = updates[k];
            self.position[k].1.position.profit = profit;
            self.position[k].1.position.liquidation_price = liquidation_price;
            k = k + 1;
        }
        Ok(())
    }
}

/// `y` is the position entry `x` with at most its unrealised profit and its
/// liquidation price changed.
pub open spec fn remarked(x: (String, PositionEx), y: (String, PositionEx)) -> bool {
    &&& y.0 == x.0
    &&& y.1.log == x.1.log
    &&& y.1.liquidation_order_id == x.1.liquidation_order_id
    &&& y.1.position == (crate::order::Position {
        profit: y.1.position.profit,
        liquidation_price: y.1.position.liquidation_price,
        ..x.1.position
    })
}

/// `b` is `a` with at most the unrealised profits and liquidation prices of its
/// positions changed: the cash balance, the order books, the closed positions and
/// every position's side, entry price, quantity and margin stay.
pub open spec fn marks_only(a: LocalExchange, b: LocalExchange) -> bool {
    &&& b == (LocalExchange { position: b.position, ..a })
    &&& b.position@.len() == a.position@.len()
    &&& forall|j: int| 0 <= j < a.position@.len() ==> remarked(a.position@[j], #[trigger] b.position@[j])
}

/// Some data source has this symbol and level.
pub open spec fn has_symbol_level(ex: LocalExchange, sym: Seq<char>, level: crate::level::Level) -> bool {
    exists|k: int| 0 <= k < ex.timeline.data_source@.len() && #[trigger] ex.timeline.data_source@[k].metadata.symbol@ == sym
        && ex.timeline.data_source@[k].metadata.level == level
}

/// No other data source has the symbol of source `k`.
pub open spec fn sole_source(ds: Seq<crate::data::DataSource>, k: int) -> bool {
    forall|j: int| 0 <= j < ds.len() && j != k ==> #[trigger] ds[j].metadata.symbol@ != ds[k].metadata.symbol@
}

/// The k-lines of the current step are loaded: a symbol with a single data source
/// holds that source's candle at the current step.
pub open spec fn klines_loaded(ex: LocalExchange, step: int) -> bool {
    let t = ex.timeline;
    forall|k: int| 0 <= k < t.data_source@.len() && sole_source(t.data_source@, k) ==> #[trigger] ex.klines@[k].1
        == t.data_source@[k].data@[t.start@[k] + step]
}

impl LocalExchange {
    /// Loads the k-lines of the current step, moves the timeline on and matches the
    /// waiting orders against the new k-lines (see `update`, which also says when the
    /// matching succeeds).
    pub fn advance(&mut self) -> (r: Result<(), ExchangeError>)
        requires
            old(self).wf(),
            old(self).timeline.index < old(self).timeline.len,
        ensures
            final(self).wf(),
            final(self).timeline.index == old(self).timeline.index + 1,
            final(self).timeline.data_source@ == old(self).timeline.data_source@,
            final(self).timeline.start@ == old(self).timeline.start@,
            final(self).timeline.len == old(self).timeline.len,
            final(self).leverage == old(self).leverage,
            final(self).slippage == old(self).slippage,
            final(self).pacemaker == old(self).pacemaker,
            final(self).exhausted == old(self).exhausted,
            klines_loaded(*final(self), old(self).timeline.index as int),
            r is Ok ==> marked_to_market(*final(self)),
            r is Ok ==> orders_matched(with_klines_of(*old(self), *final(self)), *final(self)),
            r is Ok ==> idle_symbols_marked(*old(self), *final(self)),
            sole_match_defined(with_klines_of(*old(self), *final(self))) ==> (r is Ok <==> marks_defined(*final(self))),
    {
        let all = self.timeline.all().unwrap();
        let ghost ds = self.timeline.data_source@;
        let ghost t0 = self.timeline;
        let mut k: usize = 0;
        while k < all.len()
            invariant
                self.wf(),
                self.timeline == t0,
                ds == t0.data_source@,
                t0.index < t0.len,
                all@.len() == ds.len(),
                forall|j: int| 0 <= j < all@.len() ==> #[trigger] all@[j].0 == ds[j].metadata.symbol
                    && all@[j].1 == ds[j].data@[t0.start@[j] + t0.index],
                k <= all@.len(),
                self.leverage == old(self).leverage,
                self.slippage == old(self).slippage,
                self.pacemaker == old(self).pacemaker,
                self.exhausted == old(self).exhausted,
                self.cash == old(self).cash,
                self.pending_order_list == old(self).pending_order_list,
                self.history_order_list == old(self).history_order_list,
                self.position == old(self).position,
                self.history_position_list == old(self).history_position_list,
                self.id == old(self).id,
                forall|j: int| 0 <= j < k && sole_source(ds, j) ==> #[trigger] self.klines@[j].1 == ds[j].data@[t0.start@[j] + t0.index],
            decreases all.len() - k,
        {
            proof {
                crate::exchange::lemma_source_index_from(ds, ds[k as int].metadata.symbol@, 0);
            }
            match self.source_position(all[k].0.as_str()) {
                Some(idx) => {
                    let ghost kl0 = self.klines@;
                    let symbol = all[k].0.clone();
                    self.klines[idx] = (symbol, all[k].1);
                    proof {
                        assert forall|j: int| 0 <= j < k + 1 && sole_source(ds, j) implies #[trigger] self.klines@[j].1
                            == ds[j].data@[t0.start@[j] + t0.index] by {
                            if j == idx && j != k {
                                assert(ds[j].metadata.symbol@ == ds[k as int].metadata.symbol@);
                            }
                        }
                    }
                },
                None => {},
            }
            proof {
                if sole_source(ds, k as int) {
                    assert(crate::exchange::source_index(ds, ds[k as int].metadata.symbol@) == k);
                }
            }
            k = k + 1;
        }
        self.timeline.next();
        let ghost mid = *self;
        let r = self.update();
        proof {
            assert(mid == with_klines_of(*old(self), *self));
            if r is Ok {
                assert forall|s: Seq<char>| #[trigger] no_orders_of(*old(self), s) implies no_orders_of(*self, s)
                    && marks_changed(position_of(*old(self), s), position_of(*self, s)) by {
                    assert(no_orders_of(mid, s));
                    assert(position_of(mid, s) == position_of(*old(self), s));
                }
            }
        }
        r
    }
}

impl LocalExchange {
    /// The current k-line of `symbol` at `level`, replaying the data in step. The
    /// first symbol asked for becomes the pacemaker: each of its calls moves the
    /// timeline on and matches the waiting orders (see `advance`); other symbols read
    /// the k-line of the current step. Once the pacemaker finds the timeline done, the
    /// exchange is exhausted and answers `None`. Fails for a symbol and level that no
    /// data source has. A pacemaker step always loads its k-lines and moves the
    /// timeline on; when the matching then acts on one order alone that can be matched
    /// without a decimal overflow, the step succeeds exactly when the positions' marks
    /// can be computed.
    pub fn next(&mut self, symbol: &str, level: crate::level::Level) -> (r: Result<Option<KLine>, ExchangeError>)
        requires
            old(self).wf(),
        ensures
            final(self).wf(),
            !has_symbol_level(*old(self), symbol@, level) ==> r == Err::<Option<KLine>, ExchangeError>(ExchangeError::UnknownSymbol)
                && *final(self) == *old(self),
            has_symbol_level(*old(self), symbol@, level) && old(self).exhausted ==> r == Ok::<Option<KLine>, ExchangeError>(None)
                && *final(self) == *old(self),
            has_symbol_level(*old(self), symbol@, level) && !old(self).exhausted ==> ({
                let pm = if old(self).pacemaker is None { symbol@ } else { old(self).pacemaker.unwrap()@ };
                &&& final(self).pacemaker matches Some(p) && p@ == pm
                &&& pm != symbol@ ==> r == Ok::<Option<KLine>, ExchangeError>(Some(old(self).kline_spec(symbol@)))
                    && *final(self) == (LocalExchange { pacemaker: final(self).pacemaker, ..*old(self) })
                &&& pm == symbol@ && old(self).timeline.index >= old(self).timeline.len ==> r == Ok::<Option<KLine>, ExchangeError>(None)
                    && final(self).exhausted
                &&& pm == symbol@ && old(self).timeline.index < old(self).timeline.len ==> final(self).timeline.index
                    == old(self).timeline.index + 1 && klines_loaded(*final(self), old(self).timeline.index as int)
                &&& pm == symbol@ && old(self).timeline.index < old(self).timeline.len && sole_match_defined(
                    step_start(*old(self), *final(self)),
                ) ==> (r is Ok <==> marks_defined(*final(self)))
                &&& pm == symbol@ && old(self).timeline.index < old(self).timeline.len && r is Ok ==> ({
                    &&& final(self).timeline.index == old(self).timeline.index + 1
                    &&& r == Ok::<Option<KLine>, ExchangeError>(Some(final(self).kline_spec(symbol@)))
                    &&& klines_loaded(*final(self), old(self).timeline.index as int)
                    &&& marked_to_market(*final(self))
                    &&& orders_matched(with_klines_of(*old(self), *final(self)), *final(self))
                    &&& idle_symbols_marked(*old(self), *final(self))
                })
            }),
    {
        let ghost ds = self.timeline.data_source@;
        let mut known = false;
        let mut k: usize = 0;
        while k < self.timeline.data_source.len()
            invariant
                ds == self.timeline.data_source@,
                k <= ds.len(),
                known == exists|j: int| 0 <= j < k && #[trigger] ds[j].metadata.symbol@ == symbol@ && ds[j].metadata.level == level,
            decreases self.timeline.data_source.len() - k,
        {
            if crate::level::str_equal(self.timeline.data_source[k].metadata.symbol.as_str(), symbol)
                && self.timeline.data_source[k].metadata.level == level {
                known = true;
            }
            k = k + 1;
        }
        if !known {
            return Err(ExchangeError::UnknownSymbol);
        }
        if self.exhausted {
            return Ok(None);
        }
        proof {
            let j = choose|j: int| 0 <= j < ds.len() && #[trigger] ds[j].metadata.symbol@ == symbol@ && ds[j].metadata.level == level;
            crate::exchange::lemma_source_index_from(ds, symbol@, 0);
            assert(ds[j].metadata.symbol@ == symbol@);
        }
        if self.pacemaker.is_none() {
            self.pacemaker = Some(symbol.to_owned());
        }
        let is_pacemaker = match &self.pacemaker {
            Some(p) => crate::level::str_equal(p.as_str(), symbol),
            None => false,
        };
        if is_pacemaker {
            if self.timeline.is_done() {
                self.exhausted = true;
                return Ok(None);
            }
            let ghost s_pre = *self;
            let step = self.advance();
            proof {
                assert(with_klines_of(s_pre, *self) == step_start(*old(self), *self));
            }
            step?;
            proof {
                let before = with_klines_of(*old(self), *self);
                let loaded = with_klines_of(s_pre, *self);
                assert(before.pending_order_list == loaded.pending_order_list);
                assert forall|x: Seq<char>| #[trigger] user_order_matched(before, *self, x) by {
                    assert(user_order_matched(loaded, *self, x));
                    assert(pending_entry(before, x) == pending_entry(loaded, x));
                }
                assert forall|x: Seq<char>| #[trigger] no_orders_of(*old(self), x) implies no_orders_of(*self, x)
                    && marks_changed(position_of(*old(self), x), position_of(*self, x)) by {
                    assert(no_orders_of(s_pre, x));
                    assert(position_of(s_pre, x) == position_of(*old(self), x));
                }
            }
        }
        Ok(Some(self.kline(symbol)))
    }
}

} // verus!
