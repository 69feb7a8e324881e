//! Orders, positions and their bookkeeping records.
use crate::decimal::Dec;
use vstd::prelude::*;

verus! {

/// Direction of an order or a position.
#[derive(Clone, Copy, Debug, PartialEq, Eq, Structural)]
pub enum Side {
    Buy,
    Sell,
}

impl Side {
    /// The opposite side.
    pub fn neg(&self) -> (r: Side)
        ensures
            r != *self,
            r == crate::exchange::opposite(*self),
    {
        match self {
            Side::Buy => Side::Sell,
            Side::Sell => Side::Buy,
        }
    }
}

/// A quantity with the sign of its side: unchanged for a buy, negated for a sell.
pub open spec fn signed_view(q: (int, nat), side: Side) -> (int, nat) {
    if side == Side::Buy {
        q
    } else {
        (-q.0, q.1)
    }
}

/// `quantity * side`: the quantity itself for a buy, its negation for a sell.
pub fn signed_by_side(a: Dec, side: Side) -> (r: Dec)
    ensures
        r@ == signed_view(a@, side),
        r.val() == (if side == Side::Buy { a.val() } else { -a.val() }),
{
    if side == Side::Buy {
        a
    } else {
        a.neg()
    }
}

/// An order as submitted by a strategy.
///
/// | kind           | `trigger_price` | `price` |
/// |----------------|-----------------|---------|
/// | market         | 0               | 0       |
/// | limit          | 0               | > 0     |
/// | trigger market | > 0             | 0       |
/// | trigger limit  | > 0             | > 0     |
#[derive(Debug)]
pub struct Order {
    pub symbol: String,
    pub side: Side,
    pub trigger_price: Dec,
    pub price: Dec,
    pub quantity: Dec,
    pub reduce_only: bool,
}

impl Order {
    pub fn is_market(&self) -> (r: bool)
        ensures
            r == (self.trigger_price.val() == 0 && self.price.val() == 0),
    {
        self.trigger_price.is_zero() && self.price.is_zero()
    }

    pub fn is_limit(&self) -> (r: bool)
        ensures
            r == (self.trigger_price.val() == 0 && self.price.val() != 0),
    {
        self.trigger_price.is_zero() && !self.price.is_zero()
    }

    pub fn is_trigger(&self) -> (r: bool)
        ensures
            r == (self.trigger_price.val() != 0),
    {
        !self.trigger_price.is_zero()
    }

    /// A field-by-field copy.
    pub fn duplicate(&self) -> (r: Order)
        ensures
            r == *self,
    {
        Order {
            symbol: self.symbol.clone(),
            side: self.side,
            trigger_price: self.trigger_price,
            price: self.price,
            quantity: self.quantity,
            reduce_only: self.reduce_only,
        }
    }
}

/// The three orders of a bracket around a new position of `quantity` on `side`: a
/// market order that opens it, a reduce-only limit order on the other side at
/// `tp_price` that takes the profit, and a reduce-only trigger-market order on the
/// other side at `sl_price` that stops the loss. Both exits are reduce-only, so they
/// never open the reverse position.
pub fn bracket_orders(symbol: &str, side: Side, tp_price: Dec, sl_price: Dec, quantity: Dec) -> (r: (
    Order,
    Order,
    Order,
))
    ensures
        r.0.symbol@ == symbol@ && r.1.symbol@ == symbol@ && r.2.symbol@ == symbol@,
        r.0.side == side && !r.0.reduce_only && r.0.quantity == quantity,
        r.0.trigger_price == Dec::spec_zero() && r.0.price == Dec::spec_zero(),
        r.1.side == crate::exchange::opposite(side) && r.1.reduce_only && r.1.quantity == quantity,
        r.1.trigger_price == Dec::spec_zero() && r.1.price == tp_price,
        r.2.side == crate::exchange::opposite(side) && r.2.reduce_only && r.2.quantity == quantity,
        r.2.trigger_price == sl_price && r.2.price == Dec::spec_zero(),
{
    let exit = side.neg();
    let entry = Order {
        symbol: symbol.to_string(),
        side,
        trigger_price: Dec::zero(),
        price: Dec::zero(),
        quantity,
        reduce_only: false,
    };
    let take_profit = Order {
        symbol: symbol.to_string(),
        side: exit,
        trigger_price: Dec::zero(),
        price: tp_price,
        quantity,
        reduce_only: true,
    };
    let stop_loss = Order {
        symbol: symbol.to_string(),
        side: exit,
        trigger_price: sl_price,
        price: Dec::zero(),
        quantity,
        reduce_only: true,
    };
    (entry, take_profit, stop_loss)
}

/// Life-cycle state of an order.
#[derive(Clone, Copy, Debug, PartialEq, Eq, Structural)]
pub enum Status {
    /// Submitted but not yet matched.
    Submitted,
    /// Partially filled.
    PartiallyFilled,
    /// Completely filled.
    Filled,
    /// Cancelled by the user or by the system (reduce-only, risk control).
    Canceled,
    /// Rejected (bad parameters, insufficient balance, rule violation).
    Rejected,
}

impl Status {
    /// Neither cancelled nor rejected.
    pub fn is_valid(&self) -> (r: bool)
        ensures
            r == !(*self == Status::Canceled || *self == Status::Rejected),
    {
        !matches!(self, Status::Canceled | Status::Rejected)
    }

    /// `Ok` for a valid status, otherwise an error that carries the status.
    pub fn ok(&self) -> (r: Result<(), Status>)
        ensures
            r is Ok <==> !(*self == Status::Canceled || *self == Status::Rejected),
            r matches Err(s) ==> s == *self,
    {
        if self.is_valid() {
            Ok(())
        } else {
            Err(*self)
        }
    }
}

/// How an order came to be.
#[derive(Clone, Copy, Debug, PartialEq, Eq, Structural)]
pub enum Kind {
    Trigger,
    Market,
    Limit,
    Liquidation,
    ADL,
}

impl Kind {
    /// An order placed by the user (trigger, market or limit).
    pub fn is_normal(&self) -> (r: bool)
        ensures
            r == (*self == Kind::Trigger || *self == Kind::Market || *self == Kind::Limit),
    {
        matches!(self, Kind::Trigger | Kind::Market | Kind::Limit)
    }
}

/// The state of an order as reported to a strategy.
#[derive(Debug)]
pub struct OrderMessage {
    pub symbol: String,
    pub side: Side,
    pub trigger_price: Dec,
    pub price: Dec,
    pub quantity: Dec,
    pub reduce_only: bool,
    pub id: String,
    pub kind: Kind,
    pub avg_price: Dec,
    pub cumulative_quantity: Dec,
    pub create_time: u64,
    pub update_time: u64,
    pub status: Status,
}

/// An open position.
#[derive(Debug)]
pub struct Position {
    pub symbol: String,
    pub leverage: u32,
    pub side: Side,
    pub open_avg_price: Dec,
    pub quantity: Dec,
    pub margin: Dec,
    pub liquidation_price: Dec,
    pub profit: Dec,
    pub open_time: u64,
}

impl Position {
    /// A field-by-field copy.
    pub fn duplicate(&self) -> (r: Position)
        ensures
            r == *self,
    {
        Position {
            symbol: self.symbol.clone(),
            leverage: self.leverage,
            side: self.side,
            open_avg_price: self.open_avg_price,
            quantity: self.quantity,
            margin: self.margin,
            liquidation_price: self.liquidation_price,
            profit: self.profit,
            open_time: self.open_time,
        }
    }
}

/// One fill that changed a position.
#[derive(Debug)]
pub struct Record {
    pub id: String,
    pub kind: Kind,
    pub side: Side,
    pub price: Dec,
    pub quantity: Dec,
    pub profit: Dec,
    pub fee: Dec,
    pub time: u64,
}

impl Record {
    /// A field-by-field copy.
    pub fn duplicate(&self) -> (r: Record)
        ensures
            r == *self,
    {
        Record {
            id: self.id.clone(),
            kind: self.kind,
            side: self.side,
            price: self.price,
            quantity: self.quantity,
            profit: self.profit,
            fee: self.fee,
            time: self.time,
        }
    }
}

/// A copy of a list of records.
pub fn duplicate_records(log: &Vec<Record>) -> (r: Vec<Record>)
    ensures
        r@ == log@,
{
    let mut r: Vec<Record> = Vec::new();
    let mut i: usize = 0;
    while i < log.len()
        invariant
            i <= log.len(),
            r@ == log@.subrange(0, i as int),
        decreases log.len() - i,
    {
        r.push(log[i].duplicate());
        i = i + 1;
    }
    proof {
        assert(log@.subrange(0, log@.len() as int) =~= log@);
    }
    r
}

/// A closed (or partially closed) position.
#[derive(Debug)]
pub struct HistoryPosition {
    pub symbol: String,
    pub leverage: u32,
    pub side: Side,
    pub open_avg_price: Dec,
    pub close_avg_price: Dec,
    pub max_quantity: Dec,
    pub close_quantity: Dec,
    pub total_profit: Dec,
    pub profit: Dec,
    pub fee: Dec,
    pub open_time: u64,
    pub close_time: u64,
    pub log: Vec<Record>,
}

impl HistoryPosition {
    /// The last fill of the position was a liquidation.
    pub fn is_liquidation(&self) -> (r: bool)
        ensures
            r == (self.log@.len() > 0 && self.log@.last().kind == Kind::Liquidation),
    {
        if self.log.len() == 0 {
            false
        } else {
            self.log[self.log.len() - 1].kind == Kind::Liquidation
        }
    }

    /// A field-by-field copy.
    pub fn duplicate(&self) -> (r: HistoryPosition)
        ensures
            r.symbol == self.symbol,
            r.leverage == self.leverage,
            r.side == self.side,
            r.open_avg_price == self.open_avg_price,
            r.close_avg_price == self.close_avg_price,
            r.max_quantity == self.max_quantity,
            r.close_quantity == self.close_quantity,
            r.total_profit == self.total_profit,
            r.profit == self.profit,
            r.fee == self.fee,
            r.open_time == self.open_time,
            r.close_time == self.close_time,
            r.log@ == self.log@,
    {
        HistoryPosition {
            symbol: self.symbol.clone(),
            leverage: self.leverage,
            side: self.side,
            open_avg_price: self.open_avg_price,
            close_avg_price: self.close_avg_price,
            max_quantity: self.max_quantity,
            close_quantity: self.close_quantity,
            total_profit: self.total_profit,
            profit: self.profit,
            fee: self.fee,
            open_time: self.open_time,
            close_time: self.close_time,
            log: duplicate_records(&self.log),
        }
    }
}

/// Aggregate statistics over closed positions.
#[derive(Debug)]
pub struct HistoryPositionSummary {
    pub symbol: String,
    pub leverage: u32,
    pub total_trades: usize,
    pub win_rate: Dec,
    pub win_trades: usize,
    pub loss_trades: usize,
    pub total_profit: Dec,
    pub profit_loss_ratio: Dec,
    pub net_gross_profit: Dec,
    pub net_gross_loss_abs: Dec,
    pub gross_profit: Dec,
    pub gross_loss_abs: Dec,
    pub total_fee: Dec,
    pub avg_profit: Dec,
    pub best_trade: Dec,
    pub worst_trade: Dec,
}

} // verus!
