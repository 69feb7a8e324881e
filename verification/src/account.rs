//! Account settings of the simulated exchange: leverage, position margin, closing a
//! position, and the starting settings.
use crate::book::{book_entries, book_len, book_value_at, key_position, OrderEx};
use crate::data::{DataSource, Timeline, TimelineError};
use crate::decimal::{dec_value, decimal_checked_add, decimal_checked_sub, fits_at_scale, max_nat, Dec};
use crate::exchange::{source_index, ExchangeError, LocalExchange};
use crate::margin::{initial_margin_spec, liquidation_price_spec, opt_sub};
use crate::matching::{position_of, repriced};
use crate::order::{Kind, Order};
use vstd::prelude::*;

verus! {

/// What `append_position_margin(symbol, margin)` does to the exchange `before`, giving
/// `after` and the result `r`.
pub open spec fn margin_appended(
    before: LocalExchange,
    after: LocalExchange,
    symbol: Seq<char>,
    margin: Dec,
    r: Result<(), ExchangeError>,
) -> bool {
    &&& !before.has_symbol(symbol) ==> r == Err::<(), ExchangeError>(ExchangeError::UnknownSymbol)
    &&& before.has_symbol(symbol) && position_of(before, symbol) is None ==> r == Err::<(), ExchangeError>(
        ExchangeError::NoPosition,
    )
    &&& before.has_symbol(symbol) ==> match position_of(before, symbol) {
        None => true,
        Some(pe) => {
            let p = pe.position;
            let k = crate::exchange::position_index(before.position@, symbol);
            let new_margin = decimal_checked_add(p.margin@, margin@);
            let init = initial_margin_spec(p.open_avg_price@, p.quantity@, p.leverage);
            let q = after.position@[k].1.position;
            &&& (new_margin is None || init is None) ==> r == Err::<(), ExchangeError>(ExchangeError::Overflow)
            &&& (new_margin is Some && init is Some && dec_value(new_margin.unwrap()) < dec_value(init.unwrap())) ==> r
                == Err::<(), ExchangeError>(ExchangeError::MarginBelowInitial)
            &&& (new_margin is Some && init is Some && dec_value(new_margin.unwrap()) >= dec_value(init.unwrap())
                && margin.val() > 0 && before.cash.val() < margin.val()) ==> r == Err::<(), ExchangeError>(
                ExchangeError::CashShortage,
            )
            &&& (new_margin is Some && init is Some && dec_value(new_margin.unwrap()) >= dec_value(init.unwrap())
                && margin.val() < 0 && -margin.val() > p.margin.val()) ==> r == Err::<(), ExchangeError>(
                ExchangeError::MarginReductionTooLarge,
            )
            &&& r matches Err(e) ==> e == ExchangeError::Overflow || e == ExchangeError::MarginBelowInitial
                || e == ExchangeError::CashShortage || e == ExchangeError::MarginReductionTooLarge
            &&& r is Ok <==> (new_margin is Some && init is Some && dec_value(new_margin.unwrap()) >= dec_value(
                init.unwrap()) && !(margin.val() > 0 && before.cash.val() < margin.val()) && !(margin.val() < 0
                && -margin.val() > p.margin.val()) && liquidation_price_spec(p.leverage,
                before.metadata_of(symbol).maintenance@, p.side, p.open_avg_price@, p.quantity@,
                new_margin.unwrap()) is Some && decimal_checked_sub(before.cash@, margin@) is Some)
            &&& r is Ok ==> {
                &&& Some(after.cash@) == decimal_checked_sub(before.cash@, margin@)
                &&& after.position@.len() == before.position@.len()
                &&& forall|j: int| 0 <= j < before.position@.len() && j != k ==> #[trigger] after.position@[j]
                    == before.position@[j]
                &&& after.position@[k].0 == before.position@[k].0
                &&& after.position@[k].1.log == pe.log
                &&& after.position@[k].1.liquidation_order_id == pe.liquidation_order_id
                &&& q == (crate::order::Position { margin: q.margin, liquidation_price: q.liquidation_price, ..p })
                &&& Some(q.margin@) == new_margin
                &&& Some(q.liquidation_price@) == liquidation_price_spec(p.leverage,
                    before.metadata_of(symbol).maintenance@, p.side, p.open_avg_price@, p.quantity@, q.margin@)
                &&& liquidation_moved(before, after, pe.liquidation_order_id@, q.liquidation_price)
                &&& after.leverage == before.leverage
                &&& after.history_order_list == before.history_order_list
                &&& after.history_position_list == before.history_position_list
                &&& after.timeline == before.timeline
                &&& after.klines == before.klines
                &&& after.id == before.id
                &&& fits_at_scale(before.cash.val() - margin.val(), max_nat(before.cash@.1, margin@.1)) ==> after.cash.val()
                    == before.cash.val() - margin.val()
                &&& fits_at_scale(p.margin.val() + margin.val(), max_nat(p.margin@.1, margin@.1)) ==> q.margin.val()
                    == p.margin.val() + margin.val()
                &&& (fits_at_scale(p.margin.val() + margin.val(), max_nat(p.margin@.1, margin@.1))
                    && fits_at_scale(before.cash.val() - margin.val(), max_nat(before.cash@.1, margin@.1)))
                    ==> after.cash.val() + q.margin.val() == before.cash.val() + p.margin.val()
            }
        },
    }
}

/// Adding margin to a position and then withdrawing the same amount restores the cash
/// balance (where neither step needs rounding).
pub proof fn lemma_append_margin_round_trip(
    ex0: LocalExchange,
    ex1: LocalExchange,
    ex2: LocalExchange,
    symbol: Seq<char>,
    margin: Dec,
    back: Dec,
)
    requires
        margin_appended(ex0, ex1, symbol, margin, Ok::<(), ExchangeError>(())),
        margin_appended(ex1, ex2, symbol, back, Ok::<(), ExchangeError>(())),
        back.val() == -margin.val(),
        fits_at_scale(ex0.cash.val() - margin.val(), max_nat(ex0.cash@.1, margin@.1)),
        fits_at_scale(ex1.cash.val() - back.val(), max_nat(ex1.cash@.1, back@.1)),
    ensures
        ex1.cash.val() == ex0.cash.val() - margin.val(),
        ex2.cash.val() == ex0.cash.val(),
{
}

/// A waiting user order of `sym` exists.
pub open spec fn has_pending_user_order(ex: LocalExchange, sym: Seq<char>) -> bool {
    let e = book_entries(ex.pending_order_list);
    exists|i: int| 0 <= i < e.len() && #[trigger] e[i].1.order.symbol@ == sym && (e[i].1.kind == Kind::Trigger
        || e[i].1.kind == Kind::Market || e[i].1.kind == Kind::Limit)
}

/// The waiting order stored under `id` moved to `price`, when there is one.
pub open spec fn liquidation_moved(old: LocalExchange, new: LocalExchange, id: Seq<char>, price: Dec) -> bool {
    let e = book_entries(old.pending_order_list);
    let k = key_position(e, id);
    if k >= 0 && e[k].1.kind == Kind::Liquidation {
        book_entries(new.pending_order_list) == e.update(k, (id, repriced(e[k].1, None, price)))
    } else {
        new.pending_order_list == old.pending_order_list
    }
}

pub proof fn lemma_source_index_same_symbols(a: Seq<DataSource>, b: Seq<DataSource>, sym: Seq<char>, i: int)
    requires
        a.len() == b.len(),
        forall|k: int| 0 <= k < a.len() ==> #[trigger] a[k].metadata.symbol@ == b[k].metadata.symbol@,
    ensures
        crate::exchange::source_index_from(a, sym, i) == crate::exchange::source_index_from(b, sym, i),
    decreases a.len() - i,
{
    if 0 <= i < a.len() && a[i].metadata.symbol@ != sym {
        lemma_source_index_same_symbols(a, b, sym, i + 1);
    }
}

impl LocalExchange {
    /// Whether a waiting user order of `symbol` exists.
    fn pending_user_order_exists(&self, symbol: &str) -> (r: bool)
        ensures
            r == has_pending_user_order(*self, symbol@),
    {
        let n = book_len(&self.pending_order_list);
        let mut i: usize = 0;
        while i < n
            invariant
                n == book_entries(self.pending_order_list).len(),
                i <= n,
                forall|j: int| 0 <= j < i ==> !(#[trigger] book_entries(self.pending_order_list)[j].1.order.symbol@ == symbol@
                    && (book_entries(self.pending_order_list)[j].1.kind == Kind::Trigger
                    || book_entries(self.pending_order_list)[j].1.kind == Kind::Market
                    || book_entries(self.pending_order_list)[j].1.kind == Kind::Limit)),
            decreases n - i,
        {
            let o = book_value_at(&self.pending_order_list, i);
            if crate::level::str_equal(o.order.symbol.as_str(), symbol) && o.kind.is_normal() {
                return true;
            }
            i = i + 1;
        }
        false
    }

    /// Changes the symbol's leverage. Refused for leverage 0 and while the symbol has
    /// waiting user orders. A position of the symbol gets the margin of the new
    /// leverage, `entry price * quantity / leverage`: the difference is taken from (or
    /// returned to) the cash balance, refused when the cash balance does not cover an
    /// increase; its liquidation price and liquidation order follow.
    pub fn set_leverage(&mut self, symbol: &str, leverage: u32) -> (r: Result<(), ExchangeError>)
        requires
            old(self).wf(),
        ensures
            final(self).wf(),
            r is Err ==> *final(self) == *old(self),
            !old(self).has_symbol(symbol@) ==> r == Err::<(), ExchangeError>(ExchangeError::UnknownSymbol),
            old(self).has_symbol(symbol@) && leverage == 0 ==> r == Err::<(), ExchangeError>(ExchangeError::ZeroLeverage),
            old(self).has_symbol(symbol@) && leverage > 0 && has_pending_user_order(*old(self), symbol@) ==> r == Err::<
                (),
                ExchangeError,
            >(ExchangeError::PendingOrdersExist),
            old(self).has_symbol(symbol@) && leverage > 0 && !has_pending_user_order(*old(self), symbol@) ==> ({
                let si = source_index(old(self).timeline.data_source@, symbol@);
                let new_leverage = old(self).leverage@.update(si, (old(self).leverage@[si].0, leverage));
                match position_of(*old(self), symbol@) {
                    None => r is Ok && *final(self) == (LocalExchange { leverage: final(self).leverage, ..*old(self) })
                        && final(self).leverage@ == new_leverage,
                    Some(pe) => {
                        let p = pe.position;
                        let k = crate::exchange::position_index(old(self).position@, symbol@);
                        let new_margin = initial_margin_spec(p.open_avg_price@, p.quantity@, leverage);
                        let append = opt_sub(new_margin, Some(p.margin@));
                        let q = final(self).position@[k].1.position;
                        &&& append is None ==> r == Err::<(), ExchangeError>(ExchangeError::Overflow)
                        &&& (append matches Some(a) && dec_value(a) > 0 && old(self).cash.val() < dec_value(a)) ==> r
                            == Err::<(), ExchangeError>(ExchangeError::CashShortage)
                        &&& r matches Err(e) ==> e == ExchangeError::Overflow || e == ExchangeError::CashShortage
                        &&& r is Ok <==> (append matches Some(a) && !(dec_value(a) > 0 && old(self).cash.val() < dec_value(a))
                            && decimal_checked_sub(old(self).cash@, a) is Some && liquidation_price_spec(leverage,
                            old(self).metadata_of(symbol@).maintenance@, p.side, p.open_avg_price@, p.quantity@,
                            new_margin.unwrap()) is Some)
                        &&& r is Ok ==> {
                            &&& final(self).leverage@ == new_leverage
                            &&& Some(final(self).cash@) == decimal_checked_sub(old(self).cash@, append.unwrap())
                            &&& final(self).position@.len() == old(self).position@.len()
                            &&& forall|j: int| 0 <= j < old(self).position@.len() && j != k ==> #[trigger] final(self).position@[j]
                                == old(self).position@[j]
                            &&& final(self).position@[k].0 == old(self).position@[k].0
                            &&& final(self).position@[k].1.log == pe.log
                            &&& final(self).position@[k].1.liquidation_order_id == pe.liquidation_order_id
                            &&& q == (crate::order::Position { leverage, margin: q.margin, liquidation_price: q.liquidation_price, ..p })
                            &&& Some(q.margin@) == new_margin
                            &&& Some(q.liquidation_price@) == liquidation_price_spec(leverage,
                                old(self).metadata_of(symbol@).maintenance@, p.side, p.open_avg_price@, p.quantity@, q.margin@)
                            &&& liquidation_moved(*old(self), *final(self), pe.liquidation_order_id@, q.liquidation_price)
                            &&& final(self).history_order_list == old(self).history_order_list
                            &&& final(self).history_position_list == old(self).history_position_list
                            &&& final(self).timeline == old(self).timeline
                            &&& final(self).klines == old(self).klines
                            &&& final(self).id == old(self).id
                            &&& (fits_at_scale(q.margin.val() - p.margin.val(), max_nat(q.margin@.1, p.margin@.1))
                                && fits_at_scale(old(self).cash.val() - dec_value(append.unwrap()), max_nat(old(self).cash@.1, append.unwrap().1)))
                                ==> final(self).cash.val() + q.margin.val() == old(self).cash.val() + p.margin.val()
                        }
                    },
                }
            }),
    {
        let si = match self.source_position(symbol) {
            Some(si) => si,
            None => {
                return Err(ExchangeError::UnknownSymbol);
            },
        };
        if leverage == 0 {
            return Err(ExchangeError::ZeroLeverage);
        }
        if self.pending_user_order_exists(symbol) {
            return Err(ExchangeError::PendingOrdersExist);
        }
        let ghost s0 = *self;
        proof {
            crate::exchange::lemma_position_index_from(self.position@, symbol@, 0);
        }
        match self.find_position(symbol) {
            None => {
                let entry = (self.leverage[si].0.clone(), leverage);
                self.leverage[si] = entry;
                Ok(())
            },
            Some(k) => {
                let maintenance = self.timeline.data_source[si].metadata.maintenance;
                let p = &self.position[k].1.position;
                let new_margin = match crate::margin::checked_calc_initial_margin(p.open_avg_price, p.quantity, leverage) {
                    Some(m) => m,
                    None => {
                        return Err(ExchangeError::Overflow);
                    },
                };
                let append = match new_margin.checked_sub(&p.margin) {
                    Some(a) => a,
                    None => {
                        return Err(ExchangeError::Overflow);
                    },
                };
                if append.gt(&Dec::zero()) && self.cash.lt(&append) {
                    return Err(ExchangeError::CashShortage);
                }
                let cash = match self.cash.checked_sub(&append) {
                    Some(c) => c,
                    None => {
                        return Err(ExchangeError::Overflow);
                    },
                };
                let liquidation_price = match crate::margin::checked_calc_liquidation_price(
                    leverage,
                    maintenance,
                    p.side,
                    p.open_avg_price,
                    p.quantity,
                    new_margin,
                ) {
                    Some(x) => x,
                    None => {
                        return Err(ExchangeError::Overflow);
                    },
                };
                let entry = (self.leverage[si].0.clone(), leverage);
                self.leverage[si] = entry;
                self.cash = cash;
                self.position[k].1.position.leverage = leverage;
                self.position[k].1.position.margin = new_margin;
                self.position[k].1.position.liquidation_price = liquidation_price;
                let liquidation_order_id = self.position[k].1.liquidation_order_id.clone();
                self.reprice_pending(liquidation_order_id.as_str(), None, liquidation_price);
                Ok(())
            },
        }
    }

    /// Moves `margin` from the cash balance into the position of `symbol` (a negative
    /// amount moves it back). Refused when the position's margin would fall below its
    /// initial margin `entry price * quantity / leverage`, when the cash balance does
    /// not cover an increase, or when more is withdrawn than the position holds. The
    /// liquidation price and liquidation order follow.
    pub fn append_position_margin(&mut self, symbol: &str, margin: Dec) -> (r: Result<(), ExchangeError>)
        requires
            old(self).wf(),
        ensures
            final(self).wf(),
            r is Err ==> *final(self) == *old(self),
            margin_appended(*old(self), *final(self), symbol@, margin, r),
    {
        let si = match self.source_position(symbol) {
            Some(si) => si,
            None => {
                return Err(ExchangeError::UnknownSymbol);
            },
        };
        proof {
            crate::exchange::lemma_position_index_from(self.position@, symbol@, 0);
        }
        let k = match self.find_position(symbol) {
            Some(k) => k,
            None => {
                return Err(ExchangeError::NoPosition);
            },
        };
        let maintenance = self.timeline.data_source[si].metadata.maintenance;
        let p = &self.position[k].1.position;
        let new_margin = p.margin.checked_add(&margin);
        let init = crate::margin::checked_calc_initial_margin(p.open_avg_price, p.quantity, p.leverage);
        let (new_margin, init) = match (new_margin, init) {
            (Some(a), Some(b)) => (a, b),
            _ => {
                return Err(ExchangeError::Overflow);
            },
        };
        let zero = Dec::zero();
        if new_margin.lt(&init) {
            return Err(ExchangeError::MarginBelowInitial);
        }
        if margin.gt(&zero) && self.cash.lt(&margin) {
            return Err(ExchangeError::CashShortage);
        }
        if margin.lt(&zero) && margin.abs().gt(&p.margin) {
            return Err(ExchangeError::MarginReductionTooLarge);
        }
        let liquidation_price = match crate::margin::checked_calc_liquidation_price(
            p.leverage,
            maintenance,
            p.side,
            p.open_avg_price,
            p.quantity,
            new_margin,
        ) {
            Some(x) => x,
            None => {
                return Err(ExchangeError::Overflow);
            },
        };
        let cash = match self.cash.checked_sub(&margin) {
            Some(c) => c,
            None => {
                return Err(ExchangeError::Overflow);
            },
        };
        self.position[k].1.position.margin = new_margin;
        self.position[k].1.position.liquidation_price = liquidation_price;
        self.cash = cash;
        let liquidation_order_id = self.position[k].1.liquidation_order_id.clone();
        self.reprice_pending(liquidation_order_id.as_str(), None, liquidation_price);
        Ok(())
    }

    /// Places a reduce-only market order for the whole position of `symbol` on the
    /// opposite side; nothing when there is no position.
    pub fn close_all_position(&mut self, symbol: &str) -> (r: Result<(), ExchangeError>)
        requires
            old(self).wf(),
        ensures
            final(self).wf(),
            !old(self).has_symbol(symbol@) ==> r == Err::<(), ExchangeError>(ExchangeError::UnknownSymbol)
                && *final(self) == *old(self),
            old(self).has_symbol(symbol@) && position_of(*old(self), symbol@) is None ==> r is Ok && *final(self) == *old(self),
            old(self).has_symbol(symbol@) && position_of(*old(self), symbol@) is Some ==> ({
                let side = crate::exchange::opposite(position_of(*old(self), symbol@).unwrap().position.side);
                exists|o: Order| #![trigger o.side]
                    o.symbol@ == symbol@ && o.side == side && o.trigger_price.val() == 0 && o.price.val() == 0
                    && o.quantity@ == (crate::decimal::mantissa_limit() - 1, 0nat) && o.reduce_only
                    && match crate::exchange::order_violation(o, old(self).metadata_of(symbol@)) {
                        Some(e) => r == Err::<(), ExchangeError>(e) && *final(self) == *old(self),
                        None => exists|rr: Result<String, ExchangeError>| crate::exchange::placement(*old(self), *final(self), o, Kind::Market, rr)
                            && (r is Ok <==> rr is Ok) && (rr matches Err(e) ==> r == Err::<(), ExchangeError>(e)),
                    }
            }),
    {
        let position = self.get_position(symbol)?;
        match position {
            Some(v) => {
                let order = Order {
                    symbol: symbol.to_owned(),
                    side: v.side.neg(),
                    trigger_price: Dec::zero(),
                    price: Dec::zero(),
                    quantity: Dec::max_value(),
                    reduce_only: true,
                };
                let ghost og = order;
                let rr = self.place_order(order);
                proof {
                    assert(og.side == crate::exchange::opposite(position_of(*old(self), symbol@).unwrap().position.side));
                }
                match rr {
                    Ok(_) => Ok(()),
                    Err(e) => Err(e),
                }
            },
            None => Ok(()),
        }
    }

    /// Sets the starting cash balance.
    pub fn cash(self, cash: Dec) -> (r: LocalExchange)
        requires
            self.wf(),
        ensures
            r.wf(),
            r == (LocalExchange { cash, ..self }),
    {
        LocalExchange { cash, ..self }
    }

    /// Sets the leverage of every symbol.
    pub fn leverage(self, leverage: u32) -> (r: LocalExchange)
        requires
            self.wf(),
        ensures
            r.wf(),
            r == (LocalExchange { leverage: r.leverage, ..self }),
            r.leverage@.len() == self.leverage@.len(),
            forall|k: int| 0 <= k < r.leverage@.len() ==> #[trigger] r.leverage@[k] == (self.leverage@[k].0, leverage),
    {
        let mut ex = self;
        let n = ex.leverage.len();
        let mut k: usize = 0;
        while k < n
            invariant
                n == ex.leverage@.len(),
                n == self.leverage@.len(),
                k <= n,
                ex == (LocalExchange { leverage: ex.leverage, ..self }),
                forall|j: int| 0 <= j < k ==> #[trigger] ex.leverage@[j] == (self.leverage@[j].0, leverage),
                forall|j: int| k <= j < n ==> #[trigger] ex.leverage@[j] == self.leverage@[j],
            decreases n - k,
        {
            let entry = (ex.leverage[k].0.clone(), leverage);
            ex.leverage[k] = entry;
            k = k + 1;
        }
        ex
    }

    /// Sets the fraction by which market fills move against the taker.
    pub fn slippage(self, slippage: Dec) -> (r: LocalExchange)
        requires
            self.wf(),
        ensures
            r.wf(),
            r == (LocalExchange { slippage, ..self }),
    {
        LocalExchange { slippage, ..self }
    }

    /// Replays only the candles whose time lies in `[start_time, end_time)`: the
    /// timeline is rebuilt from the filtered data sources. Fails when they do not form
    /// a timeline.
    pub fn range(self, start_time: u64, end_time: u64) -> (r: Result<LocalExchange, TimelineError>)
        requires
            self.wf(),
        ensures
            r is Err ==> exists|fs: Seq<DataSource>| #![trigger fs.len()] fs.len() == self.timeline.data_source@.len()
                && (forall|k: int| 0 <= k < fs.len() ==> (#[trigger] fs[k]).metadata == self.timeline.data_source@[k].metadata
                    && fs[k].data@ == self.timeline.data_source@[k].data@.filter(
                    |c: crate::data::KLine| start_time <= c.time && c.time < end_time,
                )) && !crate::data::timeline_buildable(fs),
            r matches Ok(ex) ==> ex.wf() && ex == (LocalExchange { timeline: ex.timeline, ..self }) && ex.timeline.index == 0
                && ex.timeline.data_source@.len() == self.timeline.data_source@.len()
                && forall|k: int| 0 <= k < ex.timeline.data_source@.len() ==> (#[trigger] ex.timeline.data_source@[k]).metadata
                    == self.timeline.data_source@[k].metadata && ex.timeline.data_source@[k].data@
                    == self.timeline.data_source@[k].data@.filter(|c: crate::data::KLine| start_time <= c.time && c.time < end_time),
            r matches Ok(ex) ==> ({
                let fs = ex.timeline.data_source@;
                let n = fs.len() as int;
                let st = crate::data::max_first_time(fs, n);
                let en = crate::data::min_last_time(fs, n);
                &&& crate::data::timeline_buildable(fs)
                &&& ex.timeline.len == crate::data::min_window_len(fs, n, st, en)
                &&& forall|k: int| 0 <= k < n ==> ex.timeline.start@[k] == #[trigger] crate::data::window_start(fs[k], st)
            }),
    {
        let n = self.timeline.data_source.len();
        let mut filtered: Vec<DataSource> = Vec::new();
        let mut k: usize = 0;
        while k < n
            invariant
                n == self.timeline.data_source@.len(),
                k <= n,
                filtered@.len() == k,
                forall|j: int| 0 <= j < k ==> (#[trigger] filtered@[j]).metadata == self.timeline.data_source@[j].metadata
                    && filtered@[j].data@ == self.timeline.data_source@[j].data@.filter(
                    |c: crate::data::KLine| start_time <= c.time && c.time < end_time,
                ),
            decreases n - k,
        {
            filtered.push(self.timeline.data_source[k].range(start_time, end_time));
            k = k + 1;
        }
        let ghost ds0 = self.timeline.data_source@;
        let ghost fs = filtered@;
        let timeline = match Timeline::new(filtered) {
            Ok(t) => t,
            Err(e) => {
                proof {
                    assert(fs.len() == self.timeline.data_source@.len());
                }
                return Err(e);
            },
        };
        proof {
            let ds = timeline.data_source@;
            assert forall|sym: Seq<char>| #[trigger] source_index(ds, sym) == source_index(ds0, sym) by {
                lemma_source_index_same_symbols(ds, ds0, sym, 0);
            }
        }
        Ok(LocalExchange { timeline, ..self })
    }
}

} // verus!
