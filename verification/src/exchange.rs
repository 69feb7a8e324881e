//! The simulated exchange: replays k-lines of several symbols in step, matches
//! orders against each new k-line, and keeps cash, isolated-margin positions with
//! their liquidation orders, and the order and position history.
//!
//! Matching rules, applied on the k-line that follows the order:
//! - a market order fills at the open price moved by the slippage fraction against
//!   the taker, kept within `[low, high]`;
//! - a limit buy at or above the open fills at the high (a sell at or below the open
//!   fills at the low); otherwise it fills at its price once the low (high) reaches it;
//! - a trigger order fires when its trigger price lies within `[low, high]`, and its
//!   market or limit order is matched on the same k-line;
//! - a liquidation order fills at its price when that lies within `[low, high]`.
use crate::book::{
    book_entries, book_insert, book_len, book_new, book_position, book_replace_at, book_shift_remove,
    book_value_at, key_position, unique_keys, OrderEx,
};
use crate::data::{DataSource, KLine, Metadata, Timeline, TimelineError};
use crate::decimal::{opt_view, Dec};
use crate::level::{str_equal, Level};
use crate::margin::{checked_calc_initial_margin, checked_calc_liquidation_price, checked_is_tick_aligned};
use crate::order::{HistoryPosition, Kind, Order, OrderMessage, Position, Record, Side, Status};
use indexmap::IndexMap;
use vstd::prelude::*;

verus! {

/// An open position with the id of its liquidation order and its fills.
#[derive(Debug)]
pub struct PositionEx {
    pub position: Position,
    pub liquidation_order_id: String,
    pub log: Vec<Record>,
}

/// Why an exchange request failed.
#[derive(Clone, Copy, Debug, PartialEq, Eq, Structural)]
pub enum ExchangeError {
    /// No data source has this symbol (and level).
    UnknownSymbol,
    /// The symbol's minimum size is not positive.
    InvalidMinSize,
    /// The symbol's tick size is not positive.
    InvalidTickSize,
    /// A limit order's price is not positive.
    NonPositiveLimitPrice,
    /// A limit order's price is not a multiple of the tick size.
    LimitPriceNotAligned,
    /// A trigger order's trigger price is not positive.
    NonPositiveTriggerPrice,
    /// A trigger order's price is negative.
    NegativeTriggerOrderPrice,
    /// A trigger order's trigger price is not a multiple of the tick size.
    TriggerPriceNotAligned,
    /// A trigger-limit order's price is not a multiple of the tick size.
    TriggerOrderPriceNotAligned,
    /// The quantity is not positive.
    NonPositiveQuantity,
    /// The quantity is not a multiple of the minimum size.
    QuantityNotAligned,
    /// A limit order's notional is below the minimum notional.
    BelowMinNotional,
    /// The cash balance does not cover the margin needed.
    CashShortage,
    /// The order belongs to another symbol.
    SymbolMismatch,
    /// Liquidation orders cannot be cancelled.
    NotCancelable,
    /// The order is no longer waiting.
    NotSubmitted,
    /// The margin would fall below the position's initial margin.
    MarginBelowInitial,
    /// More margin would be withdrawn than the position holds.
    MarginReductionTooLarge,
    /// There is no position for the symbol.
    NoPosition,
    /// Leverage must be at least 1.
    ZeroLeverage,
    /// The symbol has waiting orders, so its leverage cannot change.
    PendingOrdersExist,
    /// A k-line's low lies above its high.
    InvalidKLine,
    /// A position's liquidation order is missing from the book.
    MissingLiquidationOrder,
    /// Decimal arithmetic overflowed.
    Overflow,
}

/// The exchange state.
#[derive(Debug)]
pub struct LocalExchange {
    pub timeline: Timeline,
    /// Current k-line of each symbol, in the order of the data sources.
    pub klines: Vec<(String, KLine)>,
    pub cash: Dec,
    /// Leverage of each symbol, in the order of the data sources.
    pub leverage: Vec<(String, u32)>,
    /// Fraction by which market fills move against the taker.
    pub slippage: Dec,
    pub history_order_list: IndexMap<String, OrderEx>,
    pub pending_order_list: IndexMap<String, OrderEx>,
    pub position: Vec<(String, PositionEx)>,
    pub history_position_list: Vec<HistoryPosition>,
    /// Counter used in order ids.
    pub id: u64,
    /// The symbol whose `next` call advances the timeline.
    pub pacemaker: Option<String>,
    pub exhausted: bool,
}

/// Every key is the id of the order stored under it.
pub open spec fn keyed_by_id(e: Seq<(Seq<char>, OrderEx)>) -> bool {
    forall|i: int| 0 <= i < e.len() ==> #[trigger] e[i].0 == e[i].1.id@
}

/// Every waiting order is in the `Submitted` state.
pub open spec fn all_submitted(e: Seq<(Seq<char>, OrderEx)>) -> bool {
    forall|i: int| 0 <= i < e.len() ==> #[trigger] e[i].1.status == Status::Submitted
}

/// No two positions have the same symbol.
pub open spec fn unique_positions(p: Seq<(String, PositionEx)>) -> bool {
    forall|i: int, j: int| 0 <= i < p.len() && 0 <= j < p.len() && i != j ==> p[i].0@ != p[j].0@
}

/// The opposite side.
pub open spec fn opposite(side: Side) -> Side {
    if side == Side::Buy {
        Side::Sell
    } else {
        Side::Buy
    }
}

/// Turning a side around twice gives the side back (`side.neg().neg() == side`).
pub proof fn lemma_opposite_involutive(side: Side)
    ensures
        opposite(opposite(side)) == side,
{
}

/// Every waiting order is for a symbol of the data sources.
pub open spec fn known_orders(ds: Seq<DataSource>, e: Seq<(Seq<char>, OrderEx)>) -> bool {
    forall|i: int| 0 <= i < e.len() ==> source_index(ds, #[trigger] e[i].1.order.symbol@) < ds.len()
}

/// Every position is for a symbol of the data sources.
pub open spec fn known_positions(ds: Seq<DataSource>, p: Seq<(String, PositionEx)>) -> bool {
    forall|i: int| 0 <= i < p.len() ==> source_index(ds, #[trigger] p[i].0@) < ds.len()
}

/// Every waiting order's id carries a counter below `c`.
pub open spec fn ids_below(e: Seq<(Seq<char>, OrderEx)>, c: int) -> bool {
    forall|i: int| 0 <= i < e.len() ==> crate::ids::id_below(#[trigger] e[i].0, c)
}

/// No waiting order's id is also filed in the history.
pub open spec fn books_disjoint(e: Seq<(Seq<char>, OrderEx)>, h: Seq<(Seq<char>, OrderEx)>) -> bool {
    forall|i: int| 0 <= i < e.len() ==> crate::book::lookup(h, #[trigger] e[i].0) is None
}

/// The id `id` is in neither book and carries a counter below the exchange's: the id of
/// an order taken out of the book and not filed yet.
pub open spec fn unfiled(ex: LocalExchange, id: Seq<char>) -> bool {
    unfiled_in(book_entries(ex.history_order_list), book_entries(ex.pending_order_list), ex.id as int, id)
}

/// `id` is in neither the history `h` nor the waiting orders `e`, and carries a
/// counter below `c`.
pub open spec fn unfiled_in(h: Seq<(Seq<char>, OrderEx)>, e: Seq<(Seq<char>, OrderEx)>, c: int, id: Seq<char>) -> bool {
    &&& crate::book::lookup(h, id) is None
    &&& crate::book::lookup(e, id) is None
    &&& crate::ids::id_below(id, c)
}

/// Every id unfiled in `a` is still unfiled in `b`.
pub open spec fn unfiled_kept(a: LocalExchange, b: LocalExchange) -> bool {
    forall|k: Seq<char>| #[trigger] unfiled_in(
        book_entries(a.history_order_list),
        book_entries(a.pending_order_list),
        a.id as int,
        k,
    ) ==> unfiled(b, k)
}

pub proof fn lemma_id_below_mono(k: Seq<char>, c1: int, c2: int)
    requires
        crate::ids::id_below(k, c1),
        c1 <= c2,
    ensures
        crate::ids::id_below(k, c2),
{
    let (t, n) = choose|t: Seq<char>, n: nat| n < c1 && k == #[trigger] crate::ids::order_id_text(t, n);
    assert(k == crate::ids::order_id_text(t, n));
}

/// Every position is stored under its own symbol.
pub open spec fn positions_keyed(p: Seq<(String, PositionEx)>) -> bool {
    forall|i: int| 0 <= i < p.len() ==> #[trigger] p[i].0@ == p[i].1.position.symbol@
}

impl LocalExchange {
    /// Structural invariant of the exchange.
    pub open spec fn wf(&self) -> bool {
        let ds = self.timeline.data_source@;
        &&& self.timeline.wf()
        &&& self.klines@.len() == ds.len()
        &&& self.leverage@.len() == ds.len()
        &&& forall|k: int| 0 <= k < ds.len() ==> #[trigger] self.klines@[k].0@ == ds[k].metadata.symbol@
        &&& forall|k: int| 0 <= k < ds.len() ==> #[trigger] self.leverage@[k].0@ == ds[k].metadata.symbol@
        &&& unique_keys(book_entries(self.pending_order_list))
        &&& keyed_by_id(book_entries(self.pending_order_list))
        &&& all_submitted(book_entries(self.pending_order_list))
        &&& ids_below(book_entries(self.pending_order_list), self.id as int)
        &&& ids_below(book_entries(self.history_order_list), self.id as int)
        &&& books_disjoint(book_entries(self.pending_order_list), book_entries(self.history_order_list))
        &&& unique_keys(book_entries(self.history_order_list))
        &&& keyed_by_id(book_entries(self.history_order_list))
        &&& unique_positions(self.position@)
        &&& positions_keyed(self.position@)
        &&& known_orders(ds, book_entries(self.pending_order_list))
        &&& known_positions(ds, self.position@)
    }

    /// An exchange replaying the given data sources, with 10 000 in cash, leverage 1
    /// for every symbol and no slippage. Fails when the sources do not form a timeline.
    pub fn new(data_source: Vec<DataSource>) -> (r: Result<LocalExchange, TimelineError>)
        ensures
            r matches Ok(ex) ==> ex.wf() && ex.cash@ == (10000int, 0nat) && ex.slippage.val() == 0
                && ex.timeline.data_source@ == data_source@ && ex.timeline.index == 0
                && ex.id == 0 && ex.position@.len() == 0 && ex.history_position_list@.len() == 0
                && book_entries(ex.pending_order_list).len() == 0 && book_entries(ex.history_order_list).len() == 0
                && ex.pacemaker is None && !ex.exhausted
                && forall|k: int| 0 <= k < ex.leverage@.len() ==> #[trigger] ex.leverage@[k].1 == 1,
            r is Ok <==> crate::data::timeline_buildable(data_source@),
    {
        let timeline = match Timeline::new(data_source) {
            Ok(t) => t,
            Err(e) => {
                return Err(e);
            },
        };
        let mut klines: Vec<(String, KLine)> = Vec::new();
        let mut leverage: Vec<(String, u32)> = Vec::new();
        let n = timeline.data_source.len();
        let mut k: usize = 0;
        while k < n
            invariant
                n == timeline.data_source@.len(),
                k <= n,
                klines@.len() == k,
                leverage@.len() == k,
                forall|j: int| 0 <= j < k ==> #[trigger] klines@[j].0@ == timeline.data_source@[j].metadata.symbol@,
                forall|j: int| 0 <= j < k ==> #[trigger] leverage@[j].0@ == timeline.data_source@[j].metadata.symbol@,
                forall|j: int| 0 <= j < k ==> #[trigger] leverage@[j].1 == 1,
            decreases n - k,
        {
            let symbol = timeline.data_source[k].metadata.symbol.clone();
            klines.push((symbol.clone(), KLine::zeroed()));
            leverage.push((symbol, 1));
            k = k + 1;
        }
        Ok(LocalExchange {
            timeline,
            klines,
            cash: Dec::from_u64(10000),
            leverage,
            slippage: Dec::zero(),
            history_order_list: book_new(),
            pending_order_list: book_new(),
            position: Vec::new(),
            history_position_list: Vec::new(),
            id: 0,
            pacemaker: None,
            exhausted: false,
        })
    }
}


/// Index of the first data source of `sym` at or after `i` (the length when none).
pub open spec fn source_index_from(ds: Seq<DataSource>, sym: Seq<char>, i: int) -> int
    decreases ds.len() - i,
{
    if i < 0 || i >= ds.len() {
        ds.len() as int
    } else if ds[i].metadata.symbol@ == sym {
        i
    } else {
        source_index_from(ds, sym, i + 1)
    }
}

pub proof fn lemma_source_index_from(ds: Seq<DataSource>, sym: Seq<char>, i: int)
    requires
        0 <= i <= ds.len(),
    ensures
        i <= source_index_from(ds, sym, i) <= ds.len(),
        source_index_from(ds, sym, i) < ds.len() ==> ds[source_index_from(ds, sym, i)].metadata.symbol@ == sym,
        forall|j: int| i <= j < source_index_from(ds, sym, i) ==> #[trigger] ds[j].metadata.symbol@ != sym,
    decreases ds.len() - i,
{
    if i < ds.len() && ds[i].metadata.symbol@ != sym {
        lemma_source_index_from(ds, sym, i + 1);
    }
}

/// Index of the first data source of `sym` (the number of sources when none).
pub open spec fn source_index(ds: Seq<DataSource>, sym: Seq<char>) -> int {
    source_index_from(ds, sym, 0)
}

/// The order a new order id is stored under, with its initial fill state.
pub open spec fn new_order_ex(order: Order, id: String, kind: Kind, time: u64, freeze: Dec) -> OrderEx {
    OrderEx {
        order,
        id,
        kind,
        avg_price: Dec::spec_zero(),
        cumulative_quantity: Dec::spec_zero(),
        create_time: time,
        update_time: time,
        status: Status::Submitted,
        freeze_margin: freeze,
    }
}

impl LocalExchange {
    /// The exchange knows `sym`.
    pub open spec fn has_symbol(&self, sym: Seq<char>) -> bool {
        source_index(self.timeline.data_source@, sym) < self.timeline.data_source@.len()
    }

    /// Metadata of a known symbol.
    pub open spec fn metadata_of(&self, sym: Seq<char>) -> Metadata {
        self.timeline.data_source@[source_index(self.timeline.data_source@, sym)].metadata
    }

    /// Current k-line of a known symbol.
    pub open spec fn kline_spec(&self, sym: Seq<char>) -> KLine {
        self.klines@[source_index(self.timeline.data_source@, sym)].1
    }

    /// Leverage of a known symbol.
    pub open spec fn leverage_spec(&self, sym: Seq<char>) -> u32 {
        self.leverage@[source_index(self.timeline.data_source@, sym)].1
    }

    /// Index of the symbol's data source.
    pub(crate) fn source_position(&self, symbol: &str) -> (r: Option<usize>)
        requires
            self.timeline.wf(),
        ensures
            r is Some <==> self.has_symbol(symbol@),
            r matches Some(k) ==> k == source_index(self.timeline.data_source@, symbol@),
    {
        let ds = &self.timeline.data_source;
        proof {
            lemma_source_index_from(ds@, symbol@, 0);
        }
        let mut k: usize = 0;
        while k < ds.len()
            invariant
                ds@ == self.timeline.data_source@,
                k <= ds@.len(),
                source_index_from(ds@, symbol@, k as int) == source_index(ds@, symbol@),
            decreases ds.len() - k,
        {
            if str_equal(ds[k].metadata.symbol.as_str(), symbol) {
                proof {
                    assert(ds@[k as int].metadata.symbol@ == symbol@);
                    assert(source_index_from(ds@, symbol@, k as int) == k);
                }
                return Some(k);
            }
            k = k + 1;
        }
        proof {
            assert(source_index_from(ds@, symbol@, k as int) == ds@.len());
        }
        None
    }

    /// Metadata of the symbol, or `UnknownSymbol`.
    pub fn get_metadata(&self, symbol: &str) -> (r: Result<&Metadata, ExchangeError>)
        requires
            self.timeline.wf(),
        ensures
            r is Err <==> !self.has_symbol(symbol@),
            r matches Err(e) ==> e == ExchangeError::UnknownSymbol,
            r matches Ok(m) ==> *m == self.metadata_of(symbol@),
    {
        match self.source_position(symbol) {
            Some(k) => Ok(&self.timeline.data_source[k].metadata),
            None => Err(ExchangeError::UnknownSymbol),
        }
    }

    /// Current k-line of a known symbol.
    pub(crate) fn kline(&self, symbol: &str) -> (r: KLine)
        requires
            self.wf(),
            self.has_symbol(symbol@),
        ensures
            r == self.kline_spec(symbol@),
    {
        let k = self.source_position(symbol).unwrap();
        self.klines[k].1
    }

    /// Leverage of a known symbol.
    pub(crate) fn leverage_of(&self, symbol: &str) -> (r: u32)
        requires
            self.wf(),
            self.has_symbol(symbol@),
        ensures
            r == self.leverage_spec(symbol@),
    {
        let k = self.source_position(symbol).unwrap();
        self.leverage[k].1
    }

    /// Takes `need` from the cash balance, unless the balance is smaller (a zero need
    /// always succeeds).
    pub(crate) fn need_cash(&mut self, need: Dec) -> (r: Result<(), ExchangeError>)
        ensures
            r matches Err(e) ==> e == ExchangeError::CashShortage || e == ExchangeError::Overflow,
            r matches Err(e) ==> *final(self) == *old(self),
            r == Err::<(), ExchangeError>(ExchangeError::CashShortage) <==> (need.val() != 0 && old(self).cash.val() < need.val()),
            r is Ok <==> !(need.val() != 0 && old(self).cash.val() < need.val())
                && crate::decimal::decimal_checked_sub(old(self).cash@, need@) is Some,
            r is Ok ==> opt_view(Some(final(self).cash)) == crate::decimal::decimal_checked_sub(old(self).cash@, need@),
            r is Ok ==> *final(self) == (LocalExchange { cash: final(self).cash, ..*old(self) }),
            r is Ok && crate::decimal::fits_at_scale(old(self).cash.val() - need.val(), crate::decimal::max_nat(
                old(self).cash@.1,
                need@.1,
            )) ==> final(self).cash.val() == old(self).cash.val() - need.val(),
    {
        if !need.is_zero() && self.cash.lt(&need) {
            return Err(ExchangeError::CashShortage);
        }
        match self.cash.checked_sub(&need) {
            Some(c) => {
                self.cash = c;
                Ok(())
            },
            None => Err(ExchangeError::Overflow),
        }
    }
}


/// Whether `v` is a whole multiple of `tick`, or `None` where the remainder overflows.
pub open spec fn alignment(v: Dec, tick: Dec) -> Option<bool> {
    if tick.val() == 0 {
        Some(false)
    } else {
        match crate::decimal::decimal_checked_rem(v@, tick@) {
            Some(_) => Some(crate::decimal::divides_value(tick.val(), v.val())),
            None => None,
        }
    }
}

/// The error for an alignment check that did not pass.
pub open spec fn misalignment(a: Option<bool>, e: ExchangeError) -> ExchangeError {
    if a is None {
        ExchangeError::Overflow
    } else {
        e
    }
}

/// The value of the largest decimal, 2^96 - 1.
pub open spec fn max_dec_val() -> int {
    crate::decimal::dec_value((crate::decimal::mantissa_limit() - 1, 0nat))
}

/// The first rule that a new order breaks, checked in this order: positive minimum
/// size and tick size; a limit price positive and on the tick grid; a trigger price
/// positive and on the grid, a trigger order's price non-negative and (when given) on
/// the grid; a positive quantity; and, unless it is a reduce-only order for the
/// largest quantity (close everything), a quantity on the minimum-size grid and a
/// limit order's notional at least the minimum notional (when one is set).
pub open spec fn order_violation(o: Order, md: Metadata) -> Option<ExchangeError> {
    let limit = o.trigger_price.val() == 0 && o.price.val() != 0;
    let trigger = o.trigger_price.val() != 0;
    if md.min_size.val() <= 0 {
        Some(ExchangeError::InvalidMinSize)
    } else if md.tick_size.val() <= 0 {
        Some(ExchangeError::InvalidTickSize)
    } else if limit && o.price.val() <= 0 {
        Some(ExchangeError::NonPositiveLimitPrice)
    } else if limit && alignment(o.price, md.tick_size) != Some(true) {
        Some(misalignment(alignment(o.price, md.tick_size), ExchangeError::LimitPriceNotAligned))
    } else if trigger && o.trigger_price.val() <= 0 {
        Some(ExchangeError::NonPositiveTriggerPrice)
    } else if trigger && o.price.val() < 0 {
        Some(ExchangeError::NegativeTriggerOrderPrice)
    } else if trigger && alignment(o.trigger_price, md.tick_size) != Some(true) {
        Some(misalignment(alignment(o.trigger_price, md.tick_size), ExchangeError::TriggerPriceNotAligned))
    } else if trigger && o.price.val() > 0 && alignment(o.price, md.tick_size) != Some(true) {
        Some(misalignment(alignment(o.price, md.tick_size), ExchangeError::TriggerOrderPriceNotAligned))
    } else if o.quantity.val() <= 0 {
        Some(ExchangeError::NonPositiveQuantity)
    } else if o.reduce_only && o.quantity.val() == max_dec_val() {
        None
    } else if alignment(o.quantity, md.min_size) != Some(true) {
        Some(misalignment(alignment(o.quantity, md.min_size), ExchangeError::QuantityNotAligned))
    } else if md.min_notional.val() != 0 && limit {
        match crate::decimal::decimal_checked_mul(o.price@, o.quantity@) {
            None => Some(ExchangeError::Overflow),
            Some(n) => if crate::decimal::dec_value(n) < md.min_notional.val() {
                Some(ExchangeError::BelowMinNotional)
            } else {
                None
            },
        }
    } else {
        None
    }
}

/// The kind an accepted order gets.
pub open spec fn order_kind(o: Order) -> Kind {
    if o.trigger_price.val() != 0 {
        Kind::Trigger
    } else if o.price.val() != 0 {
        Kind::Limit
    } else {
        Kind::Market
    }
}

/// `v` is on the grid of `tick`, else the given error.
fn check_aligned(v: Dec, tick: Dec, e: ExchangeError) -> (r: Result<(), ExchangeError>)
    ensures
        r is Ok <==> alignment(v, tick) == Some(true),
        r matches Err(x) ==> x == misalignment(alignment(v, tick), e),
{
    match checked_is_tick_aligned(v, tick) {
        Some(true) => Ok(()),
        Some(false) => Err(e),
        None => Err(ExchangeError::Overflow),
    }
}

/// A non-reduce-only limit order, which takes margin when placed.
pub open spec fn needs_freeze(order: Order) -> bool {
    !order.reduce_only && order.trigger_price.val() == 0 && order.price.val() != 0
}

/// Initial margin of a limit order at the symbol's leverage.
pub open spec fn placed_margin(ex: LocalExchange, order: Order) -> Option<(int, nat)> {
    crate::margin::initial_margin_spec(order.price@, order.quantity@, ex.leverage_spec(order.symbol@))
}

/// `a - b` needs no rounding: the exact difference fits at the larger of the two scales.
pub open spec fn exact_difference(a: Dec, b: Dec) -> bool {
    crate::decimal::fits_at_scale(a.val() - b.val(), crate::decimal::max_nat(a@.1, b@.1))
}

/// `a + b` needs no rounding: the exact sum fits at the larger of the two scales.
pub open spec fn exact_sum(a: Dec, b: Dec) -> bool {
    crate::decimal::fits_at_scale(a.val() + b.val(), crate::decimal::max_nat(a@.1, b@.1))
}

/// The effect of recording a new waiting order (see `LocalExchange::place_order`).
pub open spec fn placement(old: LocalExchange, new: LocalExchange, order: Order, kind: Kind, r: Result<String, ExchangeError>) -> bool {
    &&& ((old.id < u64::MAX && needs_freeze(order) && placed_margin(old, order) is Some
        && crate::decimal::dec_value(placed_margin(old, order).unwrap()) != 0
        && old.cash.val() < crate::decimal::dec_value(placed_margin(old, order).unwrap()))
        <==> r == Err::<String, ExchangeError>(ExchangeError::CashShortage))
    &&& (r is Ok <==> (old.id < u64::MAX && (needs_freeze(order) ==> (placed_margin(old, order) is Some && !(
        crate::decimal::dec_value(placed_margin(old, order).unwrap()) != 0 && old.cash.val() < crate::decimal::dec_value(
        placed_margin(old, order).unwrap())) && crate::decimal::decimal_checked_sub(old.cash@, placed_margin(old,
        order).unwrap()) is Some))))
    &&& (r is Err ==> new.cash == old.cash && new.pending_order_list == old.pending_order_list)
    &&& (r matches Err(e) ==> e == ExchangeError::CashShortage || e == ExchangeError::Overflow)
    &&& (r is Ok ==> old.id < u64::MAX && new.id == old.id + 1)
    &&& (r matches Ok(id) ==> key_position(book_entries(old.pending_order_list), id@) < 0)
    &&& (r matches Ok(id) ==> 0 <= key_position(book_entries(new.pending_order_list), id@)
        < book_entries(new.pending_order_list).len())
    &&& (r matches Ok(id) ==> book_entries(new.pending_order_list) == crate::book::insert_effect(
        book_entries(old.pending_order_list), id@, stored(new, id)))
    &&& (r matches Ok(id) ==> stored(new, id) == new_order_ex(order, id, kind,
        old.kline_spec(order.symbol@).time, stored(new, id).freeze_margin))
    &&& (r matches Ok(id) ==> needs_freeze(order) ==> (placed_margin(old, order) == Some(stored(new, id).freeze_margin@)
        && opt_view(Some(new.cash)) == crate::decimal::decimal_checked_sub(old.cash@, stored(new, id).freeze_margin@)))
    &&& (r matches Ok(id) ==> needs_freeze(order) ==> exact_difference(old.cash, stored(new, id).freeze_margin)
        ==> new.cash.val() == old.cash.val() - stored(new, id).freeze_margin.val())
    &&& (r matches Ok(id) ==> !needs_freeze(order) ==> (stored(new, id).freeze_margin == Dec::spec_zero()
        && new.cash == old.cash))
}

/// The waiting order stored under `id`.
pub open spec fn stored(ex: LocalExchange, id: String) -> OrderEx {
    book_entries(ex.pending_order_list)[key_position(book_entries(ex.pending_order_list), id@)].1
}

impl LocalExchange {
    /// Records a new waiting order under a fresh id. A non-reduce-only limit order
    /// takes its initial margin (`price * quantity / leverage`) from the cash balance
    /// now; other orders take margin when they fill.
    pub(crate) fn place_order_inner(&mut self, order: Order, kind: Kind) -> (r: Result<String, ExchangeError>)
        requires
            old(self).wf(),
            old(self).has_symbol(order.symbol@),
        ensures
            final(self).wf(),
            final(self).timeline == old(self).timeline,
            final(self).klines == old(self).klines,
            final(self).leverage == old(self).leverage,
            final(self).slippage == old(self).slippage,
            final(self).history_order_list == old(self).history_order_list,
            final(self).position == old(self).position,
            final(self).history_position_list == old(self).history_position_list,
            final(self).pacemaker == old(self).pacemaker,
            final(self).exhausted == old(self).exhausted,
            placement(*old(self), *final(self), order, kind, r),
            kind != Kind::Trigger ==> crate::book::trigger_count(book_entries(final(self).pending_order_list))
                <= crate::book::trigger_count(book_entries(old(self).pending_order_list)),
            old(self).id <= final(self).id,
            crate::matching::user_orders_kept(*old(self), *final(self)),
            unfiled_kept(*old(self), *final(self)),
    {
        let leverage = self.leverage_of(order.symbol.as_str());
        let kline_time = self.kline(order.symbol.as_str()).time;
        if self.id == u64::MAX {
            return Err(ExchangeError::Overflow);
        }
        let time_text = crate::time::t2s(kline_time);
        let ghost t = time_text@;
        let ghost c = self.id;
        let id = crate::ids::order_id(time_text, self.id);
        proof {
            let e0 = book_entries(self.pending_order_list);
            assert forall|i: int| 0 <= i < e0.len() implies #[trigger] e0[i].0 != id@ by {
                crate::ids::lemma_fresh_id(e0[i].0, t, c as nat);
            }
            crate::book::lemma_key_position_absent(e0, id@);
            assert forall|i: int| 0 <= i < e0.len() implies crate::ids::id_below(#[trigger] e0[i].0, c + 1) by {
                lemma_id_below_mono(e0[i].0, c as int, c + 1);
            }
            let h0 = book_entries(self.history_order_list);
            assert forall|i: int| 0 <= i < h0.len() implies crate::ids::id_below(#[trigger] h0[i].0, c + 1) by {
                lemma_id_below_mono(h0[i].0, c as int, c + 1);
            }
            assert forall|i: int| 0 <= i < h0.len() implies #[trigger] h0[i].0 != id@ by {
                crate::ids::lemma_fresh_id(h0[i].0, t, c as nat);
            }
            crate::book::lemma_key_position_absent(h0, id@);
            assert(crate::ids::order_id_text(t, c as nat) == id@);
        }
        self.id = self.id + 1;
        let mut freeze = Dec::zero();
        if !order.reduce_only && order.is_limit() {
            let f = match checked_calc_initial_margin(order.price, order.quantity, leverage) {
                Some(f) => f,
                None => {
                    return Err(ExchangeError::Overflow);
                },
            };
            match self.need_cash(f) {
                Ok(()) => {},
                Err(e) => {
                    return Err(e);
                },
            }
            freeze = f;
        }
        let o = OrderEx {
            order,
            id: id.clone(),
            kind,
            avg_price: Dec::zero(),
            cumulative_quantity: Dec::zero(),
            create_time: kline_time,
            update_time: kline_time,
            status: Status::Submitted,
            freeze_margin: freeze,
        };
        let ghost e = book_entries(self.pending_order_list);
        let ghost o_spec = o;
        book_insert(&mut self.pending_order_list, id.clone(), o);
        proof {
            let e2 = book_entries(self.pending_order_list);
            crate::book::lemma_insert_unique(e, id@, o_spec);
            crate::book::lemma_trigger_count_insert(e, id@, o_spec);
            crate::book::lemma_key_position_found(e, id@);
            crate::book::lemma_insert_all(e, id@, o_spec, |x: (Seq<char>, OrderEx)| x.0 == x.1.id@);
            crate::book::lemma_insert_all(e, id@, o_spec, |x: (Seq<char>, OrderEx)| x.1.status == Status::Submitted);
            let ds = self.timeline.data_source@;
            crate::book::lemma_insert_all(e, id@, o_spec, |x: (Seq<char>, OrderEx)| source_index(ds, x.1.order.symbol@) < ds.len());
            let cnt = self.id as int;
            crate::book::lemma_insert_all(e, id@, o_spec, |x: (Seq<char>, OrderEx)| crate::ids::id_below(x.0, cnt));
            assert(crate::book::all_entries(e, |x: (Seq<char>, OrderEx)| crate::ids::id_below(x.0, cnt)));
            assert(crate::book::all_entries(e, |x: (Seq<char>, OrderEx)| x.0 == x.1.id@));
            assert(crate::book::all_entries(e, |x: (Seq<char>, OrderEx)| x.1.status == Status::Submitted));
            assert(crate::book::all_entries(e, |x: (Seq<char>, OrderEx)| source_index(ds, x.1.order.symbol@) < ds.len()));
            if key_position(e, id@) >= 0 {
                crate::book::lemma_key_position(e2, id@, key_position(e, id@));
            } else {
                crate::book::lemma_key_position(e2, id@, e.len() as int);
            }
            assert forall|k: Seq<char>| k != id@ implies #[trigger] crate::book::lookup(e2, k) == crate::book::lookup(e, k) by {
                crate::book::lemma_lookup_insert(e, id@, o_spec, k);
            }
            crate::matching::lemma_orders_kept_other_key(e, e2, book_entries(self.history_order_list), id@);
            assert forall|k: Seq<char>| #[trigger] unfiled_in(
                book_entries(old(self).history_order_list),
                book_entries(old(self).pending_order_list),
                old(self).id as int,
                k,
            ) implies unfiled(*self, k) by {
                crate::ids::lemma_fresh_id(k, t, c as nat);
                crate::book::lemma_lookup_insert(e, id@, o_spec, k);
                lemma_id_below_mono(k, c as int, c + 1);
            }
            let h2 = book_entries(self.history_order_list);
            assert forall|i: int| 0 <= i < e2.len() implies crate::book::lookup(h2, #[trigger] e2[i].0) is None by {
                if e2[i].0 != id@ {
                    crate::book::lemma_key_position_found(e2, e2[i].0);
                    crate::book::lemma_lookup_insert(e, id@, o_spec, e2[i].0);
                    crate::book::lemma_key_position_found(e, e2[i].0);
                    crate::book::lemma_key_position(e2, e2[i].0, i);
                    let q = crate::book::key_position(e, e2[i].0);
                    assert(crate::book::lookup(h2, e[q].0) is None);
                }
            }
        }
        Ok(id)
    }
}


impl LocalExchange {
    /// Submits an order. It is checked against the symbol's trading rules (see
    /// `order_violation`) and recorded as a trigger, limit or market order; it is
    /// matched on the following k-lines.
    pub fn place_order(&mut self, order: Order) -> (r: Result<String, ExchangeError>)
        requires
            old(self).wf(),
        ensures
            final(self).wf(),
            !old(self).has_symbol(order.symbol@) ==> r == Err::<String, ExchangeError>(ExchangeError::UnknownSymbol)
                && *final(self) == *old(self),
            old(self).has_symbol(order.symbol@) ==> match order_violation(order, old(self).metadata_of(order.symbol@)) {
                Some(e) => r == Err::<String, ExchangeError>(e) && *final(self) == *old(self),
                None => placement(*old(self), *final(self), order, order_kind(order), r),
            },
            final(self).timeline == old(self).timeline,
            final(self).klines == old(self).klines,
            final(self).leverage == old(self).leverage,
            final(self).slippage == old(self).slippage,
            final(self).history_order_list == old(self).history_order_list,
            final(self).position == old(self).position,
            final(self).history_position_list == old(self).history_position_list,
            final(self).pacemaker == old(self).pacemaker,
            final(self).exhausted == old(self).exhausted,
    {
        let md = match self.get_metadata(order.symbol.as_str()) {
            Ok(m) => m,
            Err(e) => {
                return Err(e);
            },
        };
        let zero = Dec::zero();
        if md.min_size.le(&zero) {
            return Err(ExchangeError::InvalidMinSize);
        }
        if md.tick_size.le(&zero) {
            return Err(ExchangeError::InvalidTickSize);
        }
        let limit = order.is_limit();
        let trigger = order.is_trigger();
        if limit && order.price.le(&zero) {
            return Err(ExchangeError::NonPositiveLimitPrice);
        }
        if limit {
            check_aligned(order.price, md.tick_size, ExchangeError::LimitPriceNotAligned)?;
        }
        if trigger {
            if order.trigger_price.le(&zero) {
                return Err(ExchangeError::NonPositiveTriggerPrice);
            }
            if order.price.lt(&zero) {
                return Err(ExchangeError::NegativeTriggerOrderPrice);
            }
            check_aligned(order.trigger_price, md.tick_size, ExchangeError::TriggerPriceNotAligned)?;
            if order.price.gt(&zero) {
                check_aligned(order.price, md.tick_size, ExchangeError::TriggerOrderPriceNotAligned)?;
            }
        }
        if order.quantity.le(&zero) {
            return Err(ExchangeError::NonPositiveQuantity);
        }
        if !(order.reduce_only && order.quantity.eq_val(&Dec::max_value())) {
            check_aligned(order.quantity, md.min_size, ExchangeError::QuantityNotAligned)?;
            if !md.min_notional.is_zero() && limit {
                let notional = match order.price.checked_mul(&order.quantity) {
                    Some(n) => n,
                    None => {
                        return Err(ExchangeError::Overflow);
                    },
                };
                if notional.lt(&md.min_notional) {
                    return Err(ExchangeError::BelowMinNotional);
                }
            }
        }
        let kind = if trigger {
            Kind::Trigger
        } else if limit {
            Kind::Limit
        } else {
            Kind::Market
        };
        self.place_order_inner(order, kind)
    }
}


/// The order after being cancelled at `time`.
pub open spec fn canceled_order(o: OrderEx, time: u64) -> OrderEx {
    OrderEx { status: Status::Canceled, update_time: time, ..o }
}

/// The waiting order stored under key `id`, if any.
pub open spec fn pending_entry(ex: LocalExchange, id: Seq<char>) -> Option<OrderEx> {
    crate::book::lookup(book_entries(ex.pending_order_list), id)
}

/// Only the cash balance and the two order books may differ.
pub open spec fn same_but_orders(a: LocalExchange, b: LocalExchange) -> bool {
    &&& a.timeline == b.timeline
    &&& a.klines == b.klines
    &&& a.leverage == b.leverage
    &&& a.slippage == b.slippage
    &&& a.position == b.position
    &&& a.history_position_list == b.history_position_list
    &&& a.id == b.id
    &&& a.pacemaker == b.pacemaker
    &&& a.exhausted == b.exhausted
}

/// The effect of `cancel_order(symbol, id)`: an unknown symbol is refused; an id that
/// is not waiting is ignored; an order of another symbol, or one the engine placed (a
/// liquidation order), is refused; otherwise the order moves to the history as
/// cancelled at the current k-line's time and its frozen margin returns to the cash
/// balance (exactly, where the sum needs no rounding).
pub open spec fn cancellation(old: LocalExchange, new: LocalExchange, symbol: Seq<char>, id: Seq<char>, r: Result<(), ExchangeError>) -> bool {
    &&& !old.has_symbol(symbol) ==> r == Err::<(), ExchangeError>(ExchangeError::UnknownSymbol) && new == old
    &&& old.has_symbol(symbol) ==> match pending_entry(old, id) {
        None => r is Ok && new == old,
        Some(o) => if o.order.symbol@ != symbol {
            r == Err::<(), ExchangeError>(ExchangeError::SymbolMismatch) && new == old
        } else if !(o.kind == Kind::Trigger || o.kind == Kind::Market || o.kind == Kind::Limit) {
            r == Err::<(), ExchangeError>(ExchangeError::NotCancelable) && new == old
        } else if crate::decimal::decimal_checked_add(old.cash@, o.freeze_margin@) is None {
            r == Err::<(), ExchangeError>(ExchangeError::Overflow) && new == old
        } else {
            &&& r is Ok
            &&& book_entries(new.pending_order_list) == crate::book::remove_effect(book_entries(old.pending_order_list), id)
            &&& book_entries(new.history_order_list) == crate::book::insert_effect(
                book_entries(old.history_order_list), o.id@, canceled_order(o, old.kline_spec(symbol).time))
            &&& Some(new.cash@) == crate::decimal::decimal_checked_add(old.cash@, o.freeze_margin@)
            &&& exact_sum(old.cash, o.freeze_margin) ==> new.cash.val() == old.cash.val() + o.freeze_margin.val()
        }
    }
}

impl LocalExchange {
    /// Moves a waiting order out of the book, marks it cancelled and inserts it into
    /// the history, and returns its frozen margin to the cash balance. `cash` is the
    /// already computed new balance.
    fn cancel_at(&mut self, p: usize, time: u64, cash: Dec)
        requires
            old(self).wf(),
            p < book_entries(old(self).pending_order_list).len(),
        ensures
            final(self).wf(),
            same_but_orders(*old(self), *final(self)),
            final(self).cash == cash,
            ({
                let e = book_entries(old(self).pending_order_list);
                let o = e[p as int].1;
                &&& book_entries(final(self).pending_order_list) == e.remove(p as int)
                &&& book_entries(final(self).history_order_list) == crate::book::insert_effect(
                    book_entries(old(self).history_order_list), o.id@, canceled_order(o, time))
            }),
    {
        let ghost e = book_entries(self.pending_order_list);
        let key = book_value_at(&self.pending_order_list, p).id.clone();
        proof {
            crate::book::lemma_key_position(e, key@, p as int);
        }
        let mut order = book_shift_remove(&mut self.pending_order_list, key.as_str()).unwrap();
        order.status = Status::Canceled;
        order.update_time = time;
        self.cash = cash;
        let ghost h = book_entries(self.history_order_list);
        let ghost co = order;
        book_insert(&mut self.history_order_list, order.id.clone(), order);
        proof {
            crate::book::lemma_remove_unique(e, key@);
            crate::book::lemma_remove_all(e, key@, |x: (Seq<char>, OrderEx)| x.0 == x.1.id@);
            crate::book::lemma_remove_all(e, key@, |x: (Seq<char>, OrderEx)| x.1.status == Status::Submitted);
            let ds = self.timeline.data_source@;
            crate::book::lemma_remove_all(e, key@, |x: (Seq<char>, OrderEx)| source_index(ds, x.1.order.symbol@) < ds.len());
            let cnt = self.id as int;
            crate::book::lemma_remove_all(e, key@, |x: (Seq<char>, OrderEx)| crate::ids::id_below(x.0, cnt));
            assert(crate::book::all_entries(e, |x: (Seq<char>, OrderEx)| crate::ids::id_below(x.0, cnt)));
            assert(crate::book::all_entries(e, |x: (Seq<char>, OrderEx)| x.0 == x.1.id@));
            assert(crate::book::all_entries(e, |x: (Seq<char>, OrderEx)| x.1.status == Status::Submitted));
            assert(crate::book::all_entries(e, |x: (Seq<char>, OrderEx)| source_index(ds, x.1.order.symbol@) < ds.len()));
            crate::book::lemma_insert_unique(h, co.id@, co);
            crate::book::lemma_insert_all(h, co.id@, co, |x: (Seq<char>, OrderEx)| x.0 == x.1.id@);
            assert(crate::book::all_entries(h, |x: (Seq<char>, OrderEx)| x.0 == x.1.id@));
        }
    }

    /// Cancels a waiting normal order of `symbol` and returns its frozen margin to the
    /// cash balance. An id that is not waiting is ignored.
    pub fn cancel_order(&mut self, symbol: &str, id: &str) -> (r: Result<(), ExchangeError>)
        requires
            old(self).wf(),
        ensures
            final(self).wf(),
            same_but_orders(*old(self), *final(self)),
            cancellation(*old(self), *final(self), symbol@, id@, r),
    {
        match self.get_metadata(symbol) {
            Ok(_) => {},
            Err(e) => {
                return Err(e);
            },
        }
        let p = match book_position(&self.pending_order_list, id) {
            Some(p) => p,
            None => {
                proof {
                    crate::book::lemma_key_position_absent(book_entries(self.pending_order_list), id@);
                }
                return Ok(());
            },
        };
        proof {
            crate::book::lemma_key_position(book_entries(self.pending_order_list), id@, p as int);
        }
        let o = book_value_at(&self.pending_order_list, p);
        if !str_equal(o.order.symbol.as_str(), symbol) {
            return Err(ExchangeError::SymbolMismatch);
        }
        if !o.kind.is_normal() {
            return Err(ExchangeError::NotCancelable);
        }
        let cash = match self.cash.checked_add(&o.freeze_margin) {
            Some(c) => c,
            None => {
                return Err(ExchangeError::Overflow);
            },
        };
        let time = self.kline(symbol).time;
        self.cancel_at(p, time, cash);
        Ok(())
    }
}


/// Cancelling an order right after placing it undoes the placement: the waiting orders
/// are those from before, and the cash balance returns to its value before the order
/// was placed (where neither taking the margin nor returning it needs rounding).
pub proof fn lemma_cancel_returns_placed_margin(
    ex0: LocalExchange,
    ex1: LocalExchange,
    ex2: LocalExchange,
    order: Order,
    id: String,
)
    requires
        ex0.wf(),
        placement(ex0, ex1, order, order_kind(order), Ok::<String, ExchangeError>(id)),
        cancellation(ex1, ex2, order.symbol@, id@, Ok::<(), ExchangeError>(())),
        ex1.has_symbol(order.symbol@),
        needs_freeze(order) ==> exact_difference(ex0.cash, stored(ex1, id).freeze_margin),
        exact_sum(ex1.cash, stored(ex1, id).freeze_margin),
    ensures
        book_entries(ex2.pending_order_list) == book_entries(ex0.pending_order_list),
        ex2.cash.val() == ex0.cash.val(),
{
    let e0 = book_entries(ex0.pending_order_list);
    let e1 = book_entries(ex1.pending_order_list);
    crate::book::lemma_key_position_found(e0, id@);
    assert(e1 == e0.push((id@, stored(ex1, id))));
    crate::book::lemma_insert_unique(e0, id@, stored(ex1, id));
    crate::book::lemma_key_position(e1, id@, e0.len() as int);
    assert(crate::book::remove_effect(e1, id@) =~= e0);
    let o = stored(ex1, id);
    assert(pending_entry(ex1, id@) == Some(o));
    assert(o.order == order && o.kind == order_kind(order));
    assert(ex2.cash.val() == ex1.cash.val() + o.freeze_margin.val());
    if !needs_freeze(order) {
        Dec::lemma_spec_zero();
        assert(o.freeze_margin.val() == 0);
    }
}

/// Two orders placed one after the other get different ids.
pub proof fn lemma_placed_ids_differ(
    ex0: LocalExchange,
    ex1: LocalExchange,
    ex2: LocalExchange,
    first: Order,
    second: Order,
    first_kind: Kind,
    second_kind: Kind,
    first_id: String,
    second_id: String,
)
    requires
        placement(ex0, ex1, first, first_kind, Ok::<String, ExchangeError>(first_id)),
        placement(ex1, ex2, second, second_kind, Ok::<String, ExchangeError>(second_id)),
    ensures
        first_id@ != second_id@,
{
}

/// Adding an entry at the end of the book leaves the frozen margin of the entries
/// before it.
pub proof fn lemma_frozen_value_push(e: Seq<(Seq<char>, OrderEx)>, x: (Seq<char>, OrderEx), n: int)
    requires
        0 <= n <= e.len(),
    ensures
        frozen_value(e.push(x), n) == frozen_value(e, n),
    decreases n,
{
    if n > 0 {
        lemma_frozen_value_push(e, x, n - 1);
        assert(e.push(x)[n - 1] == e[n - 1]);
    }
}

/// Placing a user order moves its frozen margin from the cash balance into the waiting
/// book: the value of the account (cash, positions, frozen margin) stays the same
/// (where taking the margin from the cash needs no rounding).
pub proof fn lemma_placing_keeps_account_value(
    ex0: LocalExchange,
    ex1: LocalExchange,
    order: Order,
    kind: Kind,
    id: String,
)
    requires
        placement(ex0, ex1, order, kind, Ok::<String, ExchangeError>(id)),
        ex1.position == ex0.position,
        kind == Kind::Trigger || kind == Kind::Market || kind == Kind::Limit,
        needs_freeze(order) ==> exact_difference(ex0.cash, stored(ex1, id).freeze_margin),
    ensures
        account_value(ex1) == account_value(ex0),
{
    let e0 = book_entries(ex0.pending_order_list);
    let e1 = book_entries(ex1.pending_order_list);
    let x = (id@, stored(ex1, id));
    assert(e1 == e0.push(x));
    lemma_frozen_value_push(e0, x, e0.len() as int);
    assert(e1[e0.len() as int] == x);
    assert(holds_frozen_margin(x.1));
    assert(frozen_value(e1, e1.len() as int) == frozen_value(e0, e0.len() as int) + x.1.freeze_margin.val());
    if !needs_freeze(order) {
        Dec::lemma_spec_zero();
    }
}

/// An order that was just placed reads back (`get_order`) as placed: waiting, with the
/// order as given, its kind and the k-line's time.
pub proof fn lemma_placed_order_reads_back(ex0: LocalExchange, ex1: LocalExchange, order: Order, kind: Kind, id: String)
    requires
        ex1.wf(),
        placement(ex0, ex1, order, kind, Ok::<String, ExchangeError>(id)),
    ensures
        order_lookup(ex1, id@) == Some(new_order_ex(order, id, kind, ex0.kline_spec(order.symbol@).time,
            stored(ex1, id).freeze_margin)),
{
    let e1 = book_entries(ex1.pending_order_list);
    let p = key_position(e1, id@);
    assert(crate::book::lookup(book_entries(ex1.history_order_list), e1[p].0) is None);
    crate::book::lemma_key_position(e1, id@, p);
}

/// An order that was just cancelled reads back (`get_order`) as cancelled at the
/// k-line's time, with everything else as it was while it waited.
pub proof fn lemma_cancelled_order_reads_back(ex1: LocalExchange, ex2: LocalExchange, symbol: Seq<char>, id: Seq<char>)
    requires
        ex1.wf(),
        pending_entry(ex1, id) is Some,
        cancellation(ex1, ex2, symbol, id, Ok::<(), ExchangeError>(())),
    ensures
        order_lookup(ex2, id) == Some(canceled_order(pending_entry(ex1, id).unwrap(), ex1.kline_spec(symbol).time)),
{
    let e1 = book_entries(ex1.pending_order_list);
    let h1 = book_entries(ex1.history_order_list);
    let o = pending_entry(ex1, id).unwrap();
    crate::book::lemma_key_position_found(e1, id);
    let p = key_position(e1, id);
    assert(o.id@ == id) by {
        assert(e1[p].0 == e1[p].1.id@);
    }
    crate::book::lemma_lookup_insert(h1, o.id@, canceled_order(o, ex1.kline_spec(symbol).time), id);
    let h2 = book_entries(ex2.history_order_list);
    crate::book::lemma_key_position_found(h2, id);
}

/// A waiting user order of `sym`, which `cancel_all_order` cancels.
pub open spec fn cancelable_of(x: (Seq<char>, OrderEx), sym: Seq<char>) -> bool {
    &&& x.1.order.symbol@ == sym
    &&& x.1.status == Status::Submitted
    &&& (x.1.kind == Kind::Trigger || x.1.kind == Kind::Market || x.1.kind == Kind::Limit)
}

pub proof fn lemma_filter_step<T>(s: Seq<T>, j: int, keep: spec_fn(T) -> bool)
    requires
        0 <= j < s.len(),
    ensures
        s.subrange(0, j + 1).filter(keep) == if keep(s[j]) {
            s.subrange(0, j).filter(keep).push(s[j])
        } else {
            s.subrange(0, j).filter(keep)
        },
{
    reveal_with_fuel(Seq::filter, 1);
    assert(s.subrange(0, j + 1).drop_last() =~= s.subrange(0, j));
}

/// The cash balance `cash` with the frozen margins of the cancelable orders of `sym`
/// among the first `n` entries of `e` returned, in book order; `None` where a sum
/// overflows.
pub open spec fn refund_total(e: Seq<(Seq<char>, OrderEx)>, sym: Seq<char>, cash: (int, nat), n: int) -> Option<(int, nat)>
    decreases n,
{
    if n <= 0 {
        Some(cash)
    } else if cancelable_of(e[n - 1], sym) {
        crate::margin::opt_add(refund_total(e, sym, cash, n - 1), Some(e[n - 1].1.freeze_margin@))
    } else {
        refund_total(e, sym, cash, n - 1)
    }
}

pub proof fn lemma_refund_total_none(e: Seq<(Seq<char>, OrderEx)>, sym: Seq<char>, cash: (int, nat), j: int, n: int)
    requires
        0 <= j <= n,
        refund_total(e, sym, cash, j) is None,
    ensures
        refund_total(e, sym, cash, n) is None,
    decreases n - j,
{
    if j < n {
        lemma_refund_total_none(e, sym, cash, j, n - 1);
    }
}

impl LocalExchange {
    /// Cancels every waiting user order of `symbol`, returning their frozen margin to
    /// the cash balance, in book order.
    pub fn cancel_all_order(&mut self, symbol: &str) -> (r: Result<(), ExchangeError>)
        requires
            old(self).wf(),
        ensures
            final(self).wf(),
            same_but_orders(*old(self), *final(self)),
            !old(self).has_symbol(symbol@) ==> r == Err::<(), ExchangeError>(ExchangeError::UnknownSymbol) && *final(self) == *old(self),
            r matches Err(e) ==> e == ExchangeError::UnknownSymbol || e == ExchangeError::Overflow,
            r is Ok ==> book_entries(final(self).pending_order_list) == book_entries(old(self).pending_order_list).filter(
                |x: (Seq<char>, OrderEx)| !cancelable_of(x, symbol@)),
            r is Ok ==> forall|q: int| 0 <= q < book_entries(old(self).pending_order_list).len() && cancelable_of(
                #[trigger] book_entries(old(self).pending_order_list)[q], symbol@) ==> crate::book::lookup(
                book_entries(final(self).history_order_list), book_entries(old(self).pending_order_list)[q].0) == Some(
                canceled_order(book_entries(old(self).pending_order_list)[q].1, old(self).kline_spec(symbol@).time)),
            r is Ok ==> crate::matching::history_kept(book_entries(old(self).history_order_list), book_entries(
                final(self).history_order_list)),
            old(self).has_symbol(symbol@) ==> ({
                let total = refund_total(book_entries(old(self).pending_order_list), symbol@, old(self).cash@,
                    book_entries(old(self).pending_order_list).len() as int);
                &&& r is Ok <==> total is Some
                &&& r is Ok ==> Some(final(self).cash@) == total
            }),
    {
        match self.get_metadata(symbol) {
            Ok(_) => {},
            Err(e) => {
                return Err(e);
            },
        }
        let time = self.kline(symbol).time;
        let ghost e0 = book_entries(self.pending_order_list);
        let ghost keep = |x: (Seq<char>, OrderEx)| !cancelable_of(x, symbol@);
        let ghost mut j: int = 0;
        let mut i: usize = 0;
        while i < book_len(&self.pending_order_list)
            invariant
                self.wf(),
                old(self).has_symbol(symbol@),
                keep == (|x: (Seq<char>, OrderEx)| !cancelable_of(x, symbol@)),
                e0 == book_entries(old(self).pending_order_list),
                time == old(self).kline_spec(symbol@).time,
                same_but_orders(*old(self), *self),
                0 <= i <= j <= e0.len(),
                book_entries(self.pending_order_list).len() == i + (e0.len() - j),
                book_entries(self.pending_order_list).subrange(0, i as int) == e0.subrange(0, j).filter(keep),
                book_entries(self.pending_order_list).subrange(i as int, book_entries(self.pending_order_list).len() as int) == e0.subrange(j, e0.len() as int),
                Some(self.cash@) == refund_total(e0, symbol@, old(self).cash@, j),
                forall|q: int| 0 <= q < j && cancelable_of(#[trigger] e0[q], symbol@) ==> crate::book::lookup(
                    book_entries(self.history_order_list), e0[q].0) == Some(canceled_order(e0[q].1, time)),
                crate::matching::history_kept(book_entries(old(self).history_order_list), book_entries(self.history_order_list)),
                forall|q: int| j <= q < e0.len() ==> crate::book::lookup(book_entries(self.history_order_list), #[trigger] e0[q].0) is None,
                crate::book::unique_keys(e0),
            decreases book_entries(self.pending_order_list).len() - i,
        {
            let ghost e = book_entries(self.pending_order_list);
            proof {
                assert(e[i as int] == e0[j]) by {
                    assert(e.subrange(i as int, e.len() as int)[0] == e0.subrange(j, e0.len() as int)[0]);
                }
                lemma_filter_step(e0, j, keep);
            }
            let o = book_value_at(&self.pending_order_list, i);
            if str_equal(o.order.symbol.as_str(), symbol) && o.status == Status::Submitted && o.kind.is_normal() {
                proof {
                    assert(cancelable_of(e0[j], symbol@));
                }
                let cash = match self.cash.checked_add(&o.freeze_margin) {
                    Some(c) => c,
                    None => {
                        proof {
                            lemma_refund_total_none(e0, symbol@, old(self).cash@, j + 1, e0.len() as int);
                        }
                        return Err(ExchangeError::Overflow);
                    },
                };
                let ghost hb = book_entries(self.history_order_list);
                self.cancel_at(i, time, cash);
                proof {
                    let hn = book_entries(self.history_order_list);
                    let key = e0[j].0;
                    assert(e[i as int].0 == e[i as int].1.id@);
                    assert forall|k: Seq<char>| #[trigger] crate::book::lookup(hn, k) == (if k == key { Some(canceled_order(e0[j].1, time)) } else { crate::book::lookup(hb, k) }) by {
                        crate::book::lemma_lookup_insert(hb, key, canceled_order(e0[j].1, time), k);
                    }
                    assert forall|q: int| 0 <= q < j + 1 && cancelable_of(#[trigger] e0[q], symbol@) implies crate::book::lookup(
                        hn, e0[q].0) == Some(canceled_order(e0[q].1, time)) by {
                        if q < j {
                            assert(e0[q].0 != e0[j].0);
                        }
                    }
                    assert forall|k: Seq<char>| #[trigger] crate::book::lookup(book_entries(old(self).history_order_list), k) is Some
                        implies crate::book::lookup(hn, k) == crate::book::lookup(book_entries(old(self).history_order_list), k) by {
                        if k == key {
                            assert(crate::book::lookup(hb, key) is None);
                        }
                    }
                    assert forall|q: int| j + 1 <= q < e0.len() implies crate::book::lookup(hn, #[trigger] e0[q].0) is None by {
                        assert(e0[q].0 != e0[j].0);
                        assert(crate::book::lookup(hb, e0[q].0) is None);
                    }
                }
                proof {
                    let e2 = book_entries(self.pending_order_list);
                    assert(e2.subrange(0, i as int) =~= e.subrange(0, i as int));
                    assert(e2.subrange(i as int, e2.len() as int) =~= e0.subrange(j + 1, e0.len() as int)) by {
                        assert forall|k: int| 0 <= k < e2.len() - i implies #[trigger] e2.subrange(i as int, e2.len() as int)[k]
                            == e0.subrange(j + 1, e0.len() as int)[k] by {
                            assert(e2[i + k] == e[i + k + 1]);
                            assert(e.subrange(i as int, e.len() as int)[k + 1] == e0.subrange(j, e0.len() as int)[k + 1]);
                        }
                    }
                    assert(!keep(e0[j]));
                    j = j + 1;
                }
            } else {
                proof {
                    assert(keep(e0[j]));
                    assert(e.subrange(0, i + 1) =~= e.subrange(0, i as int).push(e[i as int]));
                    assert(e.subrange(i + 1, e.len() as int) =~= e0.subrange(j + 1, e0.len() as int)) by {
                        assert forall|k: int| 0 <= k < e.len() - i - 1 implies #[trigger] e.subrange(i + 1, e.len() as int)[k]
                            == e0.subrange(j + 1, e0.len() as int)[k] by {
                            assert(e.subrange(i as int, e.len() as int)[k + 1] == e0.subrange(j, e0.len() as int)[k + 1]);
                        }
                    }
                    j = j + 1;
                }
                i = i + 1;
            }
        }
        proof {
            let e = book_entries(self.pending_order_list);
            assert(j == e0.len());
            assert(e0.subrange(0, j) =~= e0);
            assert(e.subrange(0, i as int) =~= e);
        }
        Ok(())
    }
}


/// The sum, via checked additions from zero, of the frozen margins of the first `n`
/// entries that are waiting user orders.
pub open spec fn pending_freeze_sum(e: Seq<(Seq<char>, OrderEx)>, n: int) -> Option<(int, nat)>
    decreases n,
{
    if n <= 0 {
        Some((0int, 0nat))
    } else {
        let prev = pending_freeze_sum(e, n - 1);
        let o = e[n - 1].1;
        if o.status == Status::Submitted && (o.kind == Kind::Trigger || o.kind == Kind::Market || o.kind == Kind::Limit) {
            crate::margin::opt_add(prev, Some(o.freeze_margin@))
        } else {
            prev
        }
    }
}

/// The sum, via checked additions from zero, of `margin + profit` over the first `n`
/// positions.
pub open spec fn position_equity_sum(p: Seq<(String, PositionEx)>, n: int) -> Option<(int, nat)>
    decreases n,
{
    if n <= 0 {
        Some((0int, 0nat))
    } else {
        crate::margin::opt_add(
            position_equity_sum(p, n - 1),
            crate::decimal::decimal_checked_add(p[n - 1].1.position.margin@, p[n - 1].1.position.profit@),
        )
    }
}

/// Equity: cash plus each position's margin and unrealised profit plus the margin
/// frozen by waiting user orders.
pub open spec fn equity_spec(ex: LocalExchange) -> Option<(int, nat)> {
    crate::margin::opt_add(
        crate::margin::opt_add(Some(ex.cash@), position_equity_sum(ex.position@, ex.position@.len() as int)),
        pending_freeze_sum(book_entries(ex.pending_order_list), book_entries(ex.pending_order_list).len() as int),
    )
}

/// The absolute value of `x`.
pub open spec fn abs_int(x: int) -> int {
    if x < 0 {
        -x
    } else {
        x
    }
}

/// The entry is a waiting user order, whose frozen margin belongs to the account.
pub open spec fn holds_frozen_margin(o: OrderEx) -> bool {
    o.status == Status::Submitted && (o.kind == Kind::Trigger || o.kind == Kind::Market || o.kind == Kind::Limit)
}

/// The margin frozen by the waiting user orders among the first `n` entries, in units
/// of 10^-28 (exact sum).
pub open spec fn frozen_value(e: Seq<(Seq<char>, OrderEx)>, n: int) -> int
    decreases n,
{
    if n <= 0 {
        0
    } else {
        frozen_value(e, n - 1) + if holds_frozen_margin(e[n - 1].1) {
            e[n - 1].1.freeze_margin.val()
        } else {
            0
        }
    }
}

/// The same sum of magnitudes.
pub open spec fn frozen_size(e: Seq<(Seq<char>, OrderEx)>, n: int) -> int
    decreases n,
{
    if n <= 0 {
        0
    } else {
        frozen_size(e, n - 1) + if holds_frozen_margin(e[n - 1].1) {
            abs_int(e[n - 1].1.freeze_margin.val())
        } else {
            0
        }
    }
}

/// The margin plus unrealised profit of the first `n` positions, in units of 10^-28
/// (exact sum).
pub open spec fn position_value(p: Seq<(String, PositionEx)>, n: int) -> int
    decreases n,
{
    if n <= 0 {
        0
    } else {
        position_value(p, n - 1) + p[n - 1].1.position.margin.val() + p[n - 1].1.position.profit.val()
    }
}

/// The same sum of magnitudes.
pub open spec fn position_size(p: Seq<(String, PositionEx)>, n: int) -> int
    decreases n,
{
    if n <= 0 {
        0
    } else {
        position_size(p, n - 1) + abs_int(p[n - 1].1.position.margin.val()) + abs_int(p[n - 1].1.position.profit.val())
    }
}

/// The value of the account, exactly: its cash, plus each position's margin and
/// unrealised profit, plus the margin frozen by its waiting user orders.
pub open spec fn account_value(ex: LocalExchange) -> int {
    let e = book_entries(ex.pending_order_list);
    ex.cash.val() + position_value(ex.position@, ex.position@.len() as int) + frozen_value(e, e.len() as int)
}

/// Every amount of the account has at most `s` decimal places, and all of them
/// together stay below 2^96 units of 10^-s: they add up without rounding.
pub open spec fn amounts_add_exactly(ex: LocalExchange, s: nat) -> bool {
    let e = book_entries(ex.pending_order_list);
    &&& s <= 28
    &&& ex.cash@.1 <= s
    &&& forall|i: int| 0 <= i < ex.position@.len() ==> (#[trigger] ex.position@[i]).1.position.margin@.1 <= s
        && ex.position@[i].1.position.profit@.1 <= s
    &&& forall|i: int| 0 <= i < e.len() ==> (#[trigger] e[i]).1.freeze_margin@.1 <= s
    &&& abs_int(ex.cash.val()) + position_size(ex.position@, ex.position@.len() as int) + frozen_size(e, e.len() as int)
        < crate::decimal::mantissa_limit() * crate::decimal::pow10((28 - s) as nat)
}

pub proof fn lemma_frozen_bounds(e: Seq<(Seq<char>, OrderEx)>, i: int, n: int)
    requires
        0 <= i <= n <= e.len(),
    ensures
        abs_int(frozen_value(e, i)) <= frozen_size(e, i) <= frozen_size(e, n),
        0 <= frozen_size(e, i),
    decreases n,
{
    if i < n {
        lemma_frozen_bounds(e, i, n - 1);
    } else if i > 0 {
        lemma_frozen_bounds(e, i - 1, i - 1);
    }
}

pub proof fn lemma_position_bounds(p: Seq<(String, PositionEx)>, i: int, n: int)
    requires
        0 <= i <= n <= p.len(),
    ensures
        abs_int(position_value(p, i)) <= position_size(p, i) <= position_size(p, n),
        0 <= position_size(p, i),
    decreases n,
{
    if i < n {
        lemma_position_bounds(p, i, n - 1);
    } else if i > 0 {
        lemma_position_bounds(p, i - 1, i - 1);
    }
}

/// The stored history of an order id, else the waiting order, if any.
pub open spec fn order_lookup(ex: LocalExchange, id: Seq<char>) -> Option<OrderEx> {
    let h = book_entries(ex.history_order_list);
    if key_position(h, id) >= 0 {
        Some(h[key_position(h, id)].1)
    } else {
        pending_entry(ex, id)
    }
}

/// `a` is a copy of `b`.
pub open spec fn same_history_position(a: HistoryPosition, b: HistoryPosition) -> bool {
    &&& a.symbol == b.symbol
    &&& a.leverage == b.leverage
    &&& a.side == b.side
    &&& a.open_avg_price == b.open_avg_price
    &&& a.close_avg_price == b.close_avg_price
    &&& a.max_quantity == b.max_quantity
    &&& a.close_quantity == b.close_quantity
    &&& a.total_profit == b.total_profit
    &&& a.profit == b.profit
    &&& a.fee == b.fee
    &&& a.open_time == b.open_time
    &&& a.close_time == b.close_time
    &&& a.log@ == b.log@
}

/// Index of the position of `sym` (the number of positions when none).
pub open spec fn position_index_from(p: Seq<(String, PositionEx)>, sym: Seq<char>, i: int) -> int
    decreases p.len() - i,
{
    if i < 0 || i >= p.len() {
        p.len() as int
    } else if p[i].0@ == sym {
        i
    } else {
        position_index_from(p, sym, i + 1)
    }
}

/// Index of the position of `sym` (the number of positions when none).
pub open spec fn position_index(p: Seq<(String, PositionEx)>, sym: Seq<char>) -> int {
    position_index_from(p, sym, 0)
}

pub proof fn lemma_position_index_from(p: Seq<(String, PositionEx)>, sym: Seq<char>, i: int)
    requires
        0 <= i <= p.len(),
    ensures
        i <= position_index_from(p, sym, i) <= p.len(),
        position_index_from(p, sym, i) < p.len() ==> p[position_index_from(p, sym, i)].0@ == sym,
        forall|j: int| i <= j < position_index_from(p, sym, i) ==> #[trigger] p[j].0@ != sym,
    decreases p.len() - i,
{
    if i < p.len() && p[i].0@ != sym {
        lemma_position_index_from(p, sym, i + 1);
    }
}

impl LocalExchange {
    /// Index of the position of `symbol`, if there is one.
    pub(crate) fn find_position(&self, symbol: &str) -> (r: Option<usize>)
        ensures
            r is Some <==> position_index(self.position@, symbol@) < self.position@.len(),
            r matches Some(k) ==> k == position_index(self.position@, symbol@),
    {
        proof {
            lemma_position_index_from(self.position@, symbol@, 0);
        }
        let mut k: usize = 0;
        while k < self.position.len()
            invariant
                k <= self.position@.len(),
                position_index_from(self.position@, symbol@, k as int) == position_index(self.position@, symbol@),
            decreases self.position.len() - k,
        {
            if str_equal(self.position[k].0.as_str(), symbol) {
                proof {
                    assert(position_index_from(self.position@, symbol@, k as int) == k);
                }
                return Some(k);
            }
            k = k + 1;
        }
        proof {
            assert(position_index_from(self.position@, symbol@, k as int) == self.position@.len());
        }
        None
    }

    /// The order with this id: from the history when it is there, else the waiting one.
    pub fn get_order(&self, id: &str) -> (r: Option<OrderMessage>)
        requires
            self.wf(),
        ensures
            r == (match order_lookup(*self, id@) {
                Some(o) => Some(crate::book::message(o)),
                None => None,
            }),
    {
        match book_position(&self.history_order_list, id) {
            Some(p) => {
                proof {
                    crate::book::lemma_key_position(book_entries(self.history_order_list), id@, p as int);
                }
                return Some(book_value_at(&self.history_order_list, p).to_order_message());
            },
            None => {
                proof {
                    crate::book::lemma_key_position_absent(book_entries(self.history_order_list), id@);
                }
            },
        }
        match book_position(&self.pending_order_list, id) {
            Some(p) => {
                proof {
                    crate::book::lemma_key_position(book_entries(self.pending_order_list), id@, p as int);
                }
                Some(book_value_at(&self.pending_order_list, p).to_order_message())
            },
            None => {
                proof {
                    crate::book::lemma_key_position_absent(book_entries(self.pending_order_list), id@);
                }
                None
            },
        }
    }

    /// The cash balance.
    pub fn get_cash(&self) -> (r: Dec)
        ensures
            r == self.cash,
    {
        self.cash
    }

    /// The leverage of the symbol.
    pub fn get_leverage(&self, symbol: &str) -> (r: Result<u32, ExchangeError>)
        requires
            self.wf(),
        ensures
            r is Err <==> !self.has_symbol(symbol@),
            r matches Err(e) ==> e == ExchangeError::UnknownSymbol,
            r matches Ok(l) ==> l == self.leverage_spec(symbol@),
    {
        match self.get_metadata(symbol) {
            Ok(_) => Ok(self.leverage_of(symbol)),
            Err(e) => Err(e),
        }
    }

    /// The open position of the symbol, if any.
    pub fn get_position(&self, symbol: &str) -> (r: Result<Option<Position>, ExchangeError>)
        requires
            self.wf(),
        ensures
            r is Err <==> !self.has_symbol(symbol@),
            r matches Err(e) ==> e == ExchangeError::UnknownSymbol,
            r matches Ok(o) ==> o == (if position_index(self.position@, symbol@) < self.position@.len() {
                Some(self.position@[position_index(self.position@, symbol@)].1.position)
            } else {
                None
            }),
    {
        match self.get_metadata(symbol) {
            Ok(_) => {},
            Err(e) => {
                return Err(e);
            },
        }
        match self.find_position(symbol) {
            Some(k) => Ok(Some(self.position[k].1.position.duplicate())),
            None => Ok(None),
        }
    }

    /// The orders of the symbol in the history, in history order.
    pub fn get_history_order_list(&self, symbol: &str) -> (r: Result<Vec<OrderMessage>, ExchangeError>)
        requires
            self.wf(),
        ensures
            r is Err <==> !self.has_symbol(symbol@),
            r matches Err(e) ==> e == ExchangeError::UnknownSymbol,
            r matches Ok(v) ==> v@ == book_entries(self.history_order_list).filter(
                |x: (Seq<char>, OrderEx)| x.1.order.symbol@ == symbol@).map_values(
                |x: (Seq<char>, OrderEx)| crate::book::message(x.1)),
    {
        match self.get_metadata(symbol) {
            Ok(_) => {},
            Err(e) => {
                return Err(e);
            },
        }
        Ok(messages_of_symbol(&self.history_order_list, symbol))
    }

    /// The waiting orders of the symbol, in book order (liquidation orders included).
    pub fn get_pending_order_list(&self, symbol: &str) -> (r: Result<Vec<OrderMessage>, ExchangeError>)
        requires
            self.wf(),
        ensures
            r is Err <==> !self.has_symbol(symbol@),
            r matches Err(e) ==> e == ExchangeError::UnknownSymbol,
            r matches Ok(v) ==> v@ == book_entries(self.pending_order_list).filter(
                |x: (Seq<char>, OrderEx)| x.1.order.symbol@ == symbol@).map_values(
                |x: (Seq<char>, OrderEx)| crate::book::message(x.1)),
    {
        match self.get_metadata(symbol) {
            Ok(_) => {},
            Err(e) => {
                return Err(e);
            },
        }
        Ok(messages_of_symbol(&self.pending_order_list, symbol))
    }

    /// The closed positions of the symbol, in closing order.
    pub fn get_history_position_list(&self, symbol: &str) -> (r: Result<Vec<HistoryPosition>, ExchangeError>)
        requires
            self.wf(),
        ensures
            r is Err <==> !self.has_symbol(symbol@),
            r matches Err(e) ==> e == ExchangeError::UnknownSymbol,
            r matches Ok(v) ==> v@.len() == self.history_position_list@.filter(|h: HistoryPosition| h.symbol@ == symbol@).len()
                && forall|i: int| 0 <= i < v@.len() ==> same_history_position(#[trigger] v@[i],
                    self.history_position_list@.filter(|h: HistoryPosition| h.symbol@ == symbol@)[i]),
    {
        match self.get_metadata(symbol) {
            Ok(_) => {},
            Err(e) => {
                return Err(e);
            },
        }
        let ghost keep = |h: HistoryPosition| h.symbol@ == symbol@;
        let mut out: Vec<HistoryPosition> = Vec::new();
        let mut i: usize = 0;
        while i < self.history_position_list.len()
            invariant
                keep == (|h: HistoryPosition| h.symbol@ == symbol@),
                i <= self.history_position_list@.len(),
                out@.len() == self.history_position_list@.subrange(0, i as int).filter(keep).len(),
                forall|k: int| 0 <= k < out@.len() ==> same_history_position(#[trigger] out@[k],
                    self.history_position_list@.subrange(0, i as int).filter(keep)[k]),
            decreases self.history_position_list.len() - i,
        {
            proof {
                lemma_filter_step(self.history_position_list@, i as int, keep);
            }
            if str_equal(self.history_position_list[i].symbol.as_str(), symbol) {
                out.push(self.history_position_list[i].duplicate());
            }
            i = i + 1;
        }
        proof {
            assert(self.history_position_list@.subrange(0, i as int) =~= self.history_position_list@);
        }
        Ok(out)
    }

    /// Cash plus each position's margin and unrealised profit plus the margin frozen
    /// by waiting user orders; `Overflow` when a sum overflows.
    pub fn get_equity(&self) -> (r: Result<Dec, ExchangeError>)
        ensures
            r is Ok <==> equity_spec(*self) is Some,
            r matches Ok(d) ==> Some(d@) == equity_spec(*self),
            r matches Err(e) ==> e == ExchangeError::Overflow,
            forall|s: nat| #[trigger] amounts_add_exactly(*self, s) ==> (r matches Ok(t) && t.val() == account_value(*self)),
    {
        let ghost s = choose|s: nat| amounts_add_exactly(*self, s);
        let ghost exact = amounts_add_exactly(*self, s);
        let ghost e = book_entries(self.pending_order_list);
        let ghost bound = crate::decimal::mantissa_limit() * crate::decimal::pow10((28 - s) as nat);
        proof {
            lemma_frozen_bounds(e, 0, e.len() as int);
            lemma_position_bounds(self.position@, 0, self.position@.len() as int);
        }
        let mut freeze: Option<Dec> = Some(Dec::zero());
        let n = book_len(&self.pending_order_list);
        let mut i: usize = 0;
        while i < n
            invariant
                n == book_entries(self.pending_order_list).len(),
                e == book_entries(self.pending_order_list),
                i <= n,
                opt_view(freeze) == pending_freeze_sum(book_entries(self.pending_order_list), i as int),
                exact == amounts_add_exactly(*self, s),
                bound == crate::decimal::mantissa_limit() * crate::decimal::pow10((28 - s) as nat),
                exact ==> (freeze matches Some(f) && f@.1 <= s && f.val() == frozen_value(e, i as int)),
            decreases n - i,
        {
            let o = book_value_at(&self.pending_order_list, i);
            if o.status == Status::Submitted && o.kind.is_normal() {
                proof {
                    if exact {
                        let f = freeze.unwrap();
                        lemma_frozen_bounds(e, i + 1, n as int);
                        lemma_position_bounds(self.position@, 0, self.position@.len() as int);
                        assert(e[i as int].1.freeze_margin@.1 <= s);
                        crate::decimal::lemma_combination_fits(f@, o.freeze_margin@, s, frozen_value(e, i + 1));
                    }
                }
                freeze = match freeze {
                    Some(f) => f.checked_add(&o.freeze_margin),
                    None => None,
                };
            }
            i = i + 1;
        }
        let mut equity: Option<Dec> = Some(Dec::zero());
        let mut k: usize = 0;
        while k < self.position.len()
            invariant
                k <= self.position@.len(),
                opt_view(equity) == position_equity_sum(self.position@, k as int),
                e == book_entries(self.pending_order_list),
                exact == amounts_add_exactly(*self, s),
                bound == crate::decimal::mantissa_limit() * crate::decimal::pow10((28 - s) as nat),
                exact ==> (equity matches Some(q) && q@.1 <= s && q.val() == position_value(self.position@, k as int)),
            decreases self.position.len() - k,
        {
            let p = &self.position[k].1.position;
            proof {
                if exact {
                    lemma_position_bounds(self.position@, k + 1, self.position@.len() as int);
                    lemma_position_bounds(self.position@, k as int, self.position@.len() as int);
                    lemma_frozen_bounds(e, 0, e.len() as int);
                    assert(self.position@[k as int].1.position.margin@.1 <= s);
                    let pl = self.position@.len() as int;
                    assert(abs_int(p.margin.val() + p.profit.val()) <= abs_int(p.margin.val()) + abs_int(p.profit.val()));
                    assert(abs_int(p.margin.val()) + abs_int(p.profit.val()) == position_size(self.position@, k + 1)
                        - position_size(self.position@, k as int));
                    assert(abs_int(p.margin.val() + p.profit.val()) <= position_size(self.position@, pl));
                    assert(abs_int(p.margin.val() + p.profit.val()) < bound);
                    crate::decimal::lemma_combination_fits(p.margin@, p.profit@, s, p.margin.val() + p.profit.val());
                }
            }
            let v = p.margin.checked_add(&p.profit);
            proof {
                if exact {
                    let q = equity.unwrap();
                    let pl = self.position@.len() as int;
                    assert(abs_int(position_value(self.position@, k + 1)) <= position_size(self.position@, pl));
                    assert(abs_int(position_value(self.position@, k + 1)) < bound);
                    crate::decimal::lemma_combination_fits(q@, v.unwrap()@, s, position_value(self.position@, k + 1));
                }
            }
            equity = match (equity, v) {
                (Some(a), Some(b)) => a.checked_add(&b),
                _ => None,
            };
            k = k + 1;
        }
        proof {
            if exact {
                lemma_position_bounds(self.position@, self.position@.len() as int, self.position@.len() as int);
                lemma_frozen_bounds(e, e.len() as int, e.len() as int);
                let q = equity.unwrap();
                crate::decimal::lemma_combination_fits(self.cash@, q@, s, self.cash.val() + q.val());
            }
        }
        let total = match equity {
            Some(e) => self.cash.checked_add(&e),
            None => None,
        };
        proof {
            if exact {
                let t = total.unwrap();
                let f = freeze.unwrap();
                crate::decimal::lemma_combination_fits(t@, f@, s, t.val() + f.val());
            }
        }
        let total = match (total, freeze) {
            (Some(a), Some(b)) => a.checked_add(&b),
            _ => None,
        };
        match total {
            Some(t) => Ok(t),
            None => Err(ExchangeError::Overflow),
        }
    }
}

/// Reports of the orders of `symbol` in a book, in book order.
fn messages_of_symbol(m: &IndexMap<String, OrderEx>, symbol: &str) -> (r: Vec<OrderMessage>)
    ensures
        r@ == book_entries(*m).filter(|x: (Seq<char>, OrderEx)| x.1.order.symbol@ == symbol@).map_values(
            |x: (Seq<char>, OrderEx)| crate::book::message(x.1)),
{
    let ghost keep = |x: (Seq<char>, OrderEx)| x.1.order.symbol@ == symbol@;
    let ghost msg = |x: (Seq<char>, OrderEx)| crate::book::message(x.1);
    let n = book_len(m);
    let mut out: Vec<OrderMessage> = Vec::new();
    let mut i: usize = 0;
    while i < n
        invariant
            keep == (|x: (Seq<char>, OrderEx)| x.1.order.symbol@ == symbol@),
            msg == (|x: (Seq<char>, OrderEx)| crate::book::message(x.1)),
            n == book_entries(*m).len(),
            i <= n,
            out@ == book_entries(*m).subrange(0, i as int).filter(keep).map_values(msg),
        decreases n - i,
    {
        proof {
            lemma_filter_step(book_entries(*m), i as int, keep);
        }
        let o = book_value_at(m, i);
        if str_equal(o.order.symbol.as_str(), symbol) {
            out.push(o.to_order_message());
            proof {
                assert(out@ =~= book_entries(*m).subrange(0, i + 1).filter(keep).map_values(msg));
            }
        }
        i = i + 1;
    }
    proof {
        assert(book_entries(*m).subrange(0, n as int) =~= book_entries(*m));
    }
    out
}

} // verus!
